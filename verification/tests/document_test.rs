use convr::convert::{route, route_error_message, Route, RouteError};
use convr::document::{
    convert, document_error_message, escape_markup, html_to_text, md_to_html, md_to_text, strip_html_tags,
    text_to_html, DocumentError,
};
use convr::formats::{Category, Format};

const HEAD: &str = "<!DOCTYPE html><html><head><meta charset=\"utf-8\"></head><body>";

#[test]
fn strip_removes_tags_and_collapses_whitespace() {
    assert_eq!(strip_html_tags("<p>Hello   <b>world</b></p>\n"), "Hello world");
    assert_eq!(strip_html_tags("  a\t\n b  "), "a b");
    assert_eq!(strip_html_tags("<br/>"), "");
    assert_eq!(strip_html_tags("x < y > z"), "x z");
    assert_eq!(strip_html_tags("a\u{3000}b\u{a0}c"), "a b c");
}

#[test]
fn strip_is_idempotent() {
    let once = strip_html_tags("<div> one <i>two</i>\n\nthree </div>");
    assert_eq!(once, "one two three");
    assert_eq!(strip_html_tags(&once), once);
}

#[test]
fn text_to_html_escapes() {
    let page = text_to_html("a<b & c>");
    assert_eq!(page, format!("{HEAD}<pre>a&lt;b &amp; c&gt;</pre></body></html>"));
    assert_eq!(strip_html_tags(&page), "a&lt;b &amp; c&gt;");
}

#[test]
fn markdown_renders_to_html() {
    assert_eq!(md_to_html("# Hi"), format!("{HEAD}<h1>Hi</h1>\n</body></html>"));
    assert_eq!(md_to_text("# Title\n\nSome *text*"), "Title Some text");
    assert_eq!(html_to_text("<h1>T</h1>"), "T");
}

#[test]
fn document_conversions() {
    assert_eq!(convert("# Hi", &Format::Markdown, &Format::Html), Ok(md_to_html("# Hi")));
    assert_eq!(convert("<b>x</b> y", &Format::Html, &Format::PlainText), Ok("x y".to_string()));
    assert_eq!(convert("*x*", &Format::Markdown, &Format::PlainText), Ok("x".to_string()));
    assert_eq!(convert("<", &Format::PlainText, &Format::Html), Ok(text_to_html("<")));
    let err = convert("", &Format::Html, &Format::Markdown).unwrap_err();
    assert_eq!(err, DocumentError::Unsupported(Format::Html, Format::Markdown));
    assert_eq!(document_error_message(&err), "Document conversion Html \u{2192} Markdown not yet supported");
}

#[test]
fn routes_follow_categories() {
    assert_eq!(route(&Format::Png, &Format::Webp), Ok(Route::Image));
    assert_eq!(route(&Format::Json, &Format::Xml), Ok(Route::Data));
    assert_eq!(route(&Format::Markdown, &Format::Html), Ok(Route::Document));
    assert_eq!(route(&Format::Pdf, &Format::Png), Err(RouteError::DocumentToImage));
    assert_eq!(route(&Format::Png, &Format::Markdown), Err(RouteError::ImageToDocument));
    let err = route(&Format::Json, &Format::Png).unwrap_err();
    assert_eq!(err, RouteError::CrossCategory(Category::Data, Category::Image));
    assert_eq!(route_error_message(&err), "Cross-category conversion Data \u{2192} Image not supported");
    assert_eq!(route_error_message(&RouteError::DocumentToImage), "Document \u{2192} Image not supported yet");
    assert_eq!(route_error_message(&RouteError::ImageToDocument), "Image \u{2192} Document not supported yet");
}

#[test]
fn markdown_text_equals_text_of_markdown_page() {
    let md = "# Title\n\nSome *emphasis* and `code`.\n\n- one\n- two\n";
    assert_eq!(html_to_text(&md_to_html(md)), md_to_text(md));
    assert_eq!(md_to_text(md), "Title Some emphasis and code. one two");
    let unclosed = "a <b";
    assert_eq!(html_to_text(&md_to_html(unclosed)), md_to_text(unclosed));
}

#[test]
fn text_page_reads_back_escaped_and_collapsed() {
    assert_eq!(html_to_text(&text_to_html("x  <y>\n& z")), "x &lt;y&gt; &amp; z");
    assert_eq!(html_to_text(&text_to_html("plain words here")), "plain words here");
    assert_eq!(html_to_text(&text_to_html("")), "");
}

#[test]
fn markup_escaping() {
    assert_eq!(escape_markup("a<b & c>d"), "a&lt;b &amp; c&gt;d");
    assert_eq!(escape_markup("plain \"quotes\" stay"), "plain \"quotes\" stay");
}
