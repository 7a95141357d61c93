//! Document transformations: Markdown, HTML and plain text.

use vstd::prelude::*;
use crate::formats::Format;
use crate::text::{is_whitespace, push_char, spec_is_whitespace};

verus! {

/// Whether, after reading `s`, the scanner is inside a tag: the last of
/// `<` and `>` seen was a `<`.
pub open spec fn in_tag_after(s: Seq<char>) -> bool
    decreases s.len(),
{
    if s.len() == 0 {
        false
    } else if s.last() == '<' {
        true
    } else if s.last() == '>' {
        false
    } else {
        in_tag_after(s.drop_last())
    }
}

/// The characters of `s` that stand outside tags: `<` opens a tag, `>`
/// closes it, and neither bracket is kept.
pub open spec fn untagged(s: Seq<char>) -> Seq<char>
    decreases s.len(),
{
    if s.len() == 0 {
        Seq::empty()
    } else {
        let p = s.drop_last();
        let c = s.last();
        if c == '<' || c == '>' || in_tag_after(p) {
            untagged(p)
        } else {
            untagged(p).push(c)
        }
    }
}

/// The words of `s` (its maximal runs of non-whitespace) joined by single
/// spaces, together with whether whitespace followed the last word.
pub open spec fn collapse_state(s: Seq<char>) -> (Seq<char>, bool)
    decreases s.len(),
{
    if s.len() == 0 {
        (Seq::empty(), false)
    } else {
        let (r, gap) = collapse_state(s.drop_last());
        let c = s.last();
        if spec_is_whitespace(c) {
            (r, true)
        } else if gap && r.len() > 0 {
            (r.push(' ').push(c), false)
        } else {
            (r.push(c), false)
        }
    }
}

/// The words of `s` joined by single spaces.
pub open spec fn collapse_whitespace(s: Seq<char>) -> Seq<char> {
    collapse_state(s).0
}

/// The readable text of an HTML fragment: tags removed, whitespace collapsed.
pub open spec fn spec_strip_html_tags(html: Seq<char>) -> Seq<char> {
    collapse_whitespace(untagged(html))
}

/// Removes HTML tags and collapses runs of whitespace into single spaces,
/// trimming both ends.
pub fn strip_html_tags(html: &str) -> (r: String)
    ensures
        r@ == spec_strip_html_tags(html@),
{
    let mut out = String::new();
    let mut in_tag = false;
    let mut chars = html.chars();
    for c in it: chars
        invariant
            it.seq() == html@,
            out@ == untagged(it.seq().take(it.index())),
            in_tag == in_tag_after(it.seq().take(it.index())),
    {
        proof {
            assert(it.seq().take(it.index() + 1).drop_last() =~= it.seq().take(it.index()));
        }
        if c == '<' {
            in_tag = true;
        } else if c == '>' {
            in_tag = false;
        } else if !in_tag {
            push_char(&mut out, c);
        }
    }
    proof {
        assert(html@.take(html@.len() as int) =~= html@);
    }
    let mut words = String::new();
    let mut gap = false;
    let mut has_word = false;
    let mut chars2 = out.as_str().chars();
    for c in it2: chars2
        invariant
            it2.seq() == out@,
            (words@, gap) == collapse_state(it2.seq().take(it2.index())),
            has_word == (words@.len() > 0),
    {
        proof {
            assert(it2.seq().take(it2.index() + 1).drop_last() =~= it2.seq().take(it2.index()));
        }
        if is_whitespace(c) {
            gap = true;
        } else {
            if gap && has_word {
                push_char(&mut words, ' ');
            }
            push_char(&mut words, c);
            gap = false;
            has_word = true;
        }
    }
    proof {
        assert(out@.take(out@.len() as int) =~= out@);
    }
    words
}


/// The shape of collapsed text: every whitespace character in it is a
/// single space standing between two non-whitespace characters.
pub open spec fn is_collapsed(t: Seq<char>) -> bool {
    forall|i: int| 0 <= i < t.len() && #[trigger] spec_is_whitespace(t[i]) ==> {
        &&& t[i] == ' '
        &&& 0 < i < t.len() - 1
        &&& !spec_is_whitespace(t[i - 1])
        &&& !spec_is_whitespace(t[i + 1])
    }
}

/// Text without tag brackets.
pub open spec fn has_no_brackets(t: Seq<char>) -> bool {
    forall|i: int| 0 <= i < t.len() ==> #[trigger] t[i] != '<' && t[i] != '>'
}

/// The non-whitespace characters of a text, in order.
pub open spec fn non_whitespace(t: Seq<char>) -> Seq<char> {
    t.filter(|c: char| !spec_is_whitespace(c))
}

proof fn lemma_collapse_state_shape(s: Seq<char>)
    ensures
        is_collapsed(collapse_state(s).0),
        collapse_state(s).0.len() > 0 ==> !spec_is_whitespace(collapse_state(s).0.last()),
        has_no_brackets(s) ==> has_no_brackets(collapse_state(s).0),
        non_whitespace(collapse_state(s).0) == non_whitespace(s),
    decreases s.len(),
{
    broadcast use vstd::seq_lib::group_seq_properties;
    if s.len() > 0 {
        let p = s.drop_last();
        lemma_collapse_state_shape(p);
        let (r, gap) = collapse_state(p);
        let c = s.last();
        assert(s =~= p.push(c));
        reveal_with_fuel(Seq::filter, 1);
        p.lemma_filter_push(c, |c: char| !spec_is_whitespace(c));
        if has_no_brackets(s) {
            assert forall|i: int| 0 <= i < p.len() implies #[trigger] p[i] != '<' && p[i] != '>' by {
                assert(p[i] == s[i]);
            }
        }
        if spec_is_whitespace(c) {
        } else if gap && r.len() > 0 {
            let r2 = r.push(' ');
            let r3 = r2.push(c);
            assert(!spec_is_whitespace(r.last()));
            assert(spec_is_whitespace(' ')) by {
                assert((' ' as u32) == 0x20);
            }
            r.lemma_filter_push(' ', |c: char| !spec_is_whitespace(c));
            r2.lemma_filter_push(c, |c: char| !spec_is_whitespace(c));
            assert forall|i: int| 0 <= i < r3.len() && #[trigger] spec_is_whitespace(r3[i]) implies {
                &&& r3[i] == ' '
                &&& 0 < i < r3.len() - 1
                &&& !spec_is_whitespace(r3[i - 1])
                &&& !spec_is_whitespace(r3[i + 1])
            } by {
                if i < r.len() {
                    assert(r3[i] == r[i]);
                    if i + 1 < r.len() {
                        assert(r3[i + 1] == r[i + 1]);
                    }
                    assert(r3[i - 1] == r[i - 1]);
                }
            }
            if has_no_brackets(s) {
                assert forall|i: int| 0 <= i < r3.len() implies #[trigger] r3[i] != '<' && r3[i] != '>' by {
                    if i < r.len() {
                        assert(r3[i] == r[i]);
                    }
                }
            }
        } else {
            let r3 = r.push(c);
            r.lemma_filter_push(c, |c: char| !spec_is_whitespace(c));
            assert forall|i: int| 0 <= i < r3.len() && #[trigger] spec_is_whitespace(r3[i]) implies {
                &&& r3[i] == ' '
                &&& 0 < i < r3.len() - 1
                &&& !spec_is_whitespace(r3[i - 1])
                &&& !spec_is_whitespace(r3[i + 1])
            } by {
                assert(r3[i] == r[i]);
                if i + 1 < r.len() {
                    assert(r3[i + 1] == r[i + 1]);
                }
                assert(r3[i - 1] == r[i - 1]);
            }
            if has_no_brackets(s) {
                assert forall|i: int| 0 <= i < r3.len() implies #[trigger] r3[i] != '<' && r3[i] != '>' by {
                    if i < r.len() {
                        assert(r3[i] == r[i]);
                    }
                }
            }
        }
    } else {
        assert(s.filter(|c: char| !spec_is_whitespace(c)) =~= Seq::<char>::empty()) by {
            reveal_with_fuel(Seq::filter, 1);
        }
    }
}

proof fn lemma_untagged_no_brackets(s: Seq<char>)
    ensures
        has_no_brackets(untagged(s)),
    decreases s.len(),
{
    if s.len() > 0 {
        lemma_untagged_no_brackets(s.drop_last());
        let u = untagged(s.drop_last());
        let c = s.last();
        if !(c == '<' || c == '>' || in_tag_after(s.drop_last())) {
            assert forall|i: int| 0 <= i < u.push(c).len() implies #[trigger] u.push(c)[i] != '<'
                && u.push(c)[i] != '>' by {
                if i < u.len() {
                    assert(u.push(c)[i] == u[i]);
                }
            }
        }
    }
}

proof fn lemma_untagged_identity(t: Seq<char>)
    requires
        has_no_brackets(t),
    ensures
        untagged(t) == t,
        !in_tag_after(t),
    decreases t.len(),
{
    if t.len() > 0 {
        let p = t.drop_last();
        assert(has_no_brackets(p)) by {
            assert forall|i: int| 0 <= i < p.len() implies #[trigger] p[i] != '<' && p[i] != '>' by {
                assert(p[i] == t[i]);
            }
        }
        lemma_untagged_identity(p);
        assert(t.last() == t[t.len() - 1]);
        assert(t =~= p.push(t.last()));
    }
}

proof fn lemma_collapse_identity(t: Seq<char>, k: int)
    requires
        is_collapsed(t),
        t.len() > 0 ==> !spec_is_whitespace(t.last()),
        0 <= k <= t.len(),
    ensures
        collapse_state(t.take(k)) == (if k > 0 && t[k - 1] == ' ' {
            (t.take(k - 1), true)
        } else {
            (t.take(k), false)
        }),
    decreases k,
{
    if k > 0 {
        lemma_collapse_identity(t, k - 1);
        assert(t.take(k).drop_last() =~= t.take(k - 1));
        assert(t.take(k).last() == t[k - 1]);
        let c = t[k - 1];
        if spec_is_whitespace(c) {
            assert(c == ' ');
            assert(k - 1 > 0);
            assert(!spec_is_whitespace(t[k - 2]));
            assert(t[k - 2] != ' ') by {
                assert(spec_is_whitespace(' ')) by { assert((' ' as u32) == 0x20); }
            }
        } else {
            assert(c != ' ') by {
                assert(spec_is_whitespace(' ')) by { assert((' ' as u32) == 0x20); }
            }
            if k - 1 > 0 && t[k - 2] == ' ' {
                assert(spec_is_whitespace(t[k - 2])) by { assert((' ' as u32) == 0x20); }
                assert(t.take(k - 2).push(' ').push(c) =~= t.take(k));
            } else {
                assert(t.take(k - 1).push(c) =~= t.take(k));
            }
        }
    } else {
        assert(t.take(0) =~= Seq::<char>::empty());
    }
}

/// What `strip_html_tags` returns is clean text: no tag brackets, no
/// whitespace but single spaces between words, nothing at either end, and
/// exactly the non-whitespace characters that stood outside tags, in order.
pub proof fn lemma_strip_html_tags_output(html: Seq<char>)
    ensures
        has_no_brackets(spec_strip_html_tags(html)),
        is_collapsed(spec_strip_html_tags(html)),
        non_whitespace(spec_strip_html_tags(html)) == non_whitespace(untagged(html)),
{
    lemma_untagged_no_brackets(html);
    lemma_collapse_state_shape(untagged(html));
}

/// Stripping is idempotent: stripping already stripped text changes nothing.
pub proof fn lemma_strip_html_tags_idempotent(html: Seq<char>)
    ensures
        spec_strip_html_tags(spec_strip_html_tags(html)) == spec_strip_html_tags(html),
{
    let t = spec_strip_html_tags(html);
    lemma_untagged_no_brackets(html);
    lemma_collapse_state_shape(untagged(html));
    lemma_untagged_identity(t);
    lemma_collapse_identity(t, t.len() as int);
    assert(t.take(t.len() as int) =~= t);
    if t.len() > 0 {
        assert(t[t.len() - 1] != ' ') by {
            assert(spec_is_whitespace(' ')) by { assert((' ' as u32) == 0x20); }
        }
    }
}


/// A single tag: `<`, then anything but `>`, then `>`.
pub open spec fn is_tag(t: Seq<char>) -> bool {
    &&& t.len() >= 2
    &&& t[0] == '<'
    &&& t.last() == '>'
    &&& forall|i: int| 0 < i < t.len() - 1 ==> #[trigger] t[i] != '>'
}

proof fn lemma_tag_prefix_in_tag(a: Seq<char>, t: Seq<char>, k: int)
    requires
        is_tag(t),
        1 <= k < t.len(),
    ensures
        in_tag_after(a + t.take(k)),
        untagged(a + t.take(k)) == untagged(a),
    decreases k,
{
    let s = a + t.take(k);
    assert(s.last() == t[k - 1]);
    if k == 1 {
        assert(s.drop_last() =~= a);
    } else {
        lemma_tag_prefix_in_tag(a, t, k - 1);
        assert(s.drop_last() =~= a + t.take(k - 1));
    }
}

/// A tag appended to any text adds nothing to what stands outside tags,
/// and closes whatever tag was open.
proof fn lemma_untagged_append_tag(a: Seq<char>, t: Seq<char>)
    requires
        is_tag(t),
    ensures
        untagged(a + t) == untagged(a),
        !in_tag_after(a + t),
{
    lemma_tag_prefix_in_tag(a, t, t.len() - 1);
    let s = a + t;
    assert(s.drop_last() =~= a + t.take(t.len() - 1));
    assert(s.last() == t.last());
}

/// Outside a tag, the untagged text of a concatenation is the concatenation
/// of the untagged texts.
proof fn lemma_untagged_concat(a: Seq<char>, b: Seq<char>)
    requires
        !in_tag_after(a),
    ensures
        untagged(a + b) == untagged(a) + untagged(b),
        in_tag_after(a + b) == in_tag_after(b),
    decreases b.len(),
{
    if b.len() == 0 {
        assert(a + b =~= a);
        assert(untagged(a) + untagged(b) =~= untagged(a));
    } else {
        lemma_untagged_concat(a, b.drop_last());
        assert((a + b).drop_last() =~= a + b.drop_last());
        assert((a + b).last() == b.last());
        let c = b.last();
        if !(c == '<' || c == '>' || in_tag_after(b.drop_last())) {
            assert(untagged(a) + untagged(b.drop_last()).push(c) =~= (untagged(a) + untagged(b.drop_last())).push(c));
        }
    }
}

proof fn lemma_page_parts()
    ensures
        page_head() == "<!DOCTYPE html>"@ + "<html>"@ + "<head>"@ + "<meta charset=\"utf-8\">"@ + "</head>"@ + "<body>"@,
        page_tail() == "</body>"@ + "</html>"@,
        is_tag("<!DOCTYPE html>"@),
        is_tag("<html>"@),
        is_tag("<head>"@),
        is_tag("<meta charset=\"utf-8\">"@),
        is_tag("</head>"@),
        is_tag("<body>"@),
        is_tag("</body>"@),
        is_tag("</html>"@),
        is_tag("<pre>"@),
        is_tag("</pre>"@),
{
    reveal_strlit("<!DOCTYPE html><html><head><meta charset=\"utf-8\"></head><body>");
    reveal_strlit("</body></html>");
    reveal_strlit("<!DOCTYPE html>");
    reveal_strlit("<html>");
    reveal_strlit("<head>");
    reveal_strlit("<meta charset=\"utf-8\">");
    reveal_strlit("</head>");
    reveal_strlit("<body>");
    reveal_strlit("</body>");
    reveal_strlit("</html>");
    reveal_strlit("<pre>");
    reveal_strlit("</pre>");
    assert(page_head() =~= "<!DOCTYPE html>"@ + "<html>"@ + "<head>"@ + "<meta charset=\"utf-8\">"@ + "</head>"@ + "<body>"@);
    assert(page_tail() =~= "</body>"@ + "</html>"@);
}

/// The HTML that CommonMark rendering (all extensions on) makes of a
/// Markdown text, as `pulldown_cmark::html::push_html` writes it.
pub uninterp spec fn commonmark_html(md: Seq<char>) -> Seq<char>;

/// Renders Markdown with `pulldown_cmark::Parser::new_ext` (all options)
/// and `pulldown_cmark::html::push_html` into a fresh string. The rendering
/// depends on the text alone; it is named, not stated.
#[verifier::external_body]
fn render_markdown(md: &str) -> (r: String)
    ensures
        r@ == commonmark_html(md@),
{
    let mut html = String::new();
    pulldown_cmark::html::push_html(&mut html, pulldown_cmark::Parser::new_ext(md, pulldown_cmark::Options::all()));
    html
}

/// The page head that wraps converted bodies.
pub open spec fn page_head() -> Seq<char> {
    "<!DOCTYPE html><html><head><meta charset=\"utf-8\"></head><body>"@
}

/// The page tail that closes converted bodies.
pub open spec fn page_tail() -> Seq<char> {
    "</body></html>"@
}

/// The escape of one character in preformatted HTML text.
pub open spec fn escape_char(c: char) -> Seq<char> {
    if c == '&' {
        "&amp;"@
    } else if c == '<' {
        "&lt;"@
    } else if c == '>' {
        "&gt;"@
    } else {
        seq![c]
    }
}

/// Text with `&`, `<` and `>` replaced by their entities.
pub open spec fn escape_text(t: Seq<char>) -> Seq<char>
    decreases t.len(),
{
    if t.len() == 0 {
        Seq::empty()
    } else {
        escape_text(t.drop_last()) + escape_char(t.last())
    }
}

/// The page `md_to_html` makes of a Markdown text.
pub open spec fn spec_md_to_html(md: Seq<char>) -> Seq<char> {
    page_head() + commonmark_html(md) + page_tail()
}

/// The page `text_to_html` makes of a plain text.
pub open spec fn spec_text_to_html(text: Seq<char>) -> Seq<char> {
    page_head() + "<pre>"@ + escape_text(text) + "</pre>"@ + page_tail()
}

/// Renders Markdown to a complete HTML page.
pub fn md_to_html(md: &str) -> (r: String)
    ensures
        r@ == spec_md_to_html(md@),
{
    let body = render_markdown(md);
    let mut page = String::from_str("<!DOCTYPE html><html><head><meta charset=\"utf-8\"></head><body>");
    page.append(body.as_str());
    page.append("</body></html>");
    page
}

/// The readable text of an HTML document.
pub fn html_to_text(html: &str) -> (r: String)
    ensures
        r@ == spec_strip_html_tags(html@),
{
    strip_html_tags(html)
}

/// The readable text of a Markdown document: rendered to HTML, then stripped.
pub fn md_to_text(md: &str) -> (r: String)
    ensures
        r@ == spec_strip_html_tags(commonmark_html(md@)),
{
    let html = render_markdown(md);
    strip_html_tags(html.as_str())
}

/// Escapes `&`, `<` and `>` as entities, so that the text reads as
/// character data in HTML or XML.
pub fn escape_markup(text: &str) -> (r: String)
    ensures
        r@ == escape_text(text@),
{
    let mut escaped = String::new();
    let mut chars = text.chars();
    for c in it: chars
        invariant
            it.seq() == text@,
            escaped@ == escape_text(it.seq().take(it.index())),
    {
        proof {
            assert(it.seq().take(it.index() + 1).drop_last() =~= it.seq().take(it.index()));
        }
        if c == '&' {
            escaped.append("&amp;");
        } else if c == '<' {
            escaped.append("&lt;");
        } else if c == '>' {
            escaped.append("&gt;");
        } else {
            push_char(&mut escaped, c);
        }
    }
    proof {
        assert(text@.take(text@.len() as int) =~= text@);
    }
    escaped
}

/// Wraps plain text, escaped, in a preformatted block of an HTML page.
pub fn text_to_html(text: &str) -> (r: String)
    ensures
        r@ == spec_text_to_html(text@),
{
    let escaped = escape_markup(text);
    let mut page = String::from_str("<!DOCTYPE html><html><head><meta charset=\"utf-8\"></head><body><pre>");
    page.append(escaped.as_str());
    page.append("</pre></body></html>");
    proof {
        assert("<!DOCTYPE html><html><head><meta charset=\"utf-8\"></head><body><pre>"@ =~= page_head() + "<pre>"@) by {
            reveal_strlit("<!DOCTYPE html><html><head><meta charset=\"utf-8\"></head><body><pre>");
            reveal_strlit("<!DOCTYPE html><html><head><meta charset=\"utf-8\"></head><body>");
            reveal_strlit("<pre>");
        }
        assert("</pre></body></html>"@ =~= "</pre>"@ + page_tail()) by {
            reveal_strlit("</pre></body></html>");
            reveal_strlit("</pre>");
            reveal_strlit("</body></html>");
        }
    }
    page
}

/// Escaped text holds no tag brackets: a text put in a page by
/// `text_to_html` cannot open or close an element.
pub proof fn lemma_escape_text_has_no_brackets(t: Seq<char>)
    ensures
        has_no_brackets(escape_text(t)),
    decreases t.len(),
{
    if t.len() > 0 {
        lemma_escape_text_has_no_brackets(t.drop_last());
        reveal_strlit("&amp;");
        reveal_strlit("&lt;");
        reveal_strlit("&gt;");
        let a = escape_text(t.drop_last());
        let b = escape_char(t.last());
        assert forall|i: int| 0 <= i < (a + b).len() implies #[trigger] (a + b)[i] != '<' && (a + b)[i] != '>' by {
            if i < a.len() {
                assert((a + b)[i] == a[i]);
            } else {
                assert((a + b)[i] == b[i - a.len()]);
            }
        }
    }
}

proof fn lemma_page_head_untagged()
    ensures
        untagged(page_head()) == Seq::<char>::empty(),
        !in_tag_after(page_head()),
{
    lemma_page_parts();
    let e = Seq::<char>::empty();
    let t1 = "<!DOCTYPE html>"@;
    let t2 = "<html>"@;
    let t3 = "<head>"@;
    let t4 = "<meta charset=\"utf-8\">"@;
    let t5 = "</head>"@;
    let t6 = "<body>"@;
    lemma_untagged_append_tag(e, t1);
    assert(e + t1 =~= t1);
    lemma_untagged_append_tag(t1, t2);
    lemma_untagged_append_tag(t1 + t2, t3);
    lemma_untagged_append_tag(t1 + t2 + t3, t4);
    lemma_untagged_append_tag(t1 + t2 + t3 + t4, t5);
    lemma_untagged_append_tag(t1 + t2 + t3 + t4 + t5, t6);
}

proof fn lemma_page_tail_untagged(a: Seq<char>)
    ensures
        untagged(a + page_tail()) == untagged(a),
{
    lemma_page_parts();
    let t7 = "</body>"@;
    let t8 = "</html>"@;
    lemma_untagged_append_tag(a, t7);
    lemma_untagged_append_tag(a + t7, t8);
    assert(a + page_tail() =~= a + t7 + t8);
}

/// Converting Markdown to text gives what converting it to an HTML page
/// and the page to text gives: the page around the rendering adds no text.
pub proof fn lemma_md_to_text_through_html(md: Seq<char>)
    ensures
        spec_strip_html_tags(spec_md_to_html(md)) == spec_strip_html_tags(commonmark_html(md)),
{
    let h = page_head();
    let x = commonmark_html(md);
    lemma_page_head_untagged();
    lemma_untagged_concat(h, x);
    assert(untagged(h) + untagged(x) =~= untagged(x));
    lemma_page_tail_untagged(h + x);
}

/// The text of a page made from plain text is that text escaped, its
/// whitespace collapsed.
pub proof fn lemma_text_page_text(t: Seq<char>)
    ensures
        spec_strip_html_tags(spec_text_to_html(t)) == collapse_whitespace(escape_text(t)),
{
    let h = page_head();
    let e = escape_text(t);
    lemma_page_parts();
    lemma_page_head_untagged();
    lemma_untagged_append_tag(h, "<pre>"@);
    let h2 = h + "<pre>"@;
    lemma_escape_text_has_no_brackets(t);
    lemma_untagged_identity(e);
    lemma_untagged_concat(h2, e);
    assert(untagged(h2) + untagged(e) =~= e);
    lemma_untagged_append_tag(h2 + e, "</pre>"@);
    lemma_page_tail_untagged(h2 + e + "</pre>"@);
}

/// Text with no `&`, `<` or `>` is its own escape.
proof fn lemma_escape_text_plain(t: Seq<char>)
    requires
        forall|i: int| 0 <= i < t.len() ==> #[trigger] t[i] != '&' && t[i] != '<' && t[i] != '>',
    ensures
        escape_text(t) == t,
    decreases t.len(),
{
    if t.len() > 0 {
        let p = t.drop_last();
        assert forall|i: int| 0 <= i < p.len() implies #[trigger] p[i] != '&' && p[i] != '<' && p[i] != '>' by {
            assert(p[i] == t[i]);
        }
        lemma_escape_text_plain(p);
        assert(t.last() == t[t.len() - 1]);
        assert(p + seq![t.last()] =~= t);
    }
}

/// Text made into a page and read back as text comes back unchanged when
/// it holds no `&`, `<` or `>` and its whitespace is already single spaces
/// between words.
pub proof fn lemma_text_page_round_trip(t: Seq<char>)
    requires
        forall|i: int| 0 <= i < t.len() ==> #[trigger] t[i] != '&' && t[i] != '<' && t[i] != '>',
        is_collapsed(t),
    ensures
        spec_strip_html_tags(spec_text_to_html(t)) == t,
{
    lemma_text_page_text(t);
    lemma_escape_text_plain(t);
    if t.len() > 0 {
        if spec_is_whitespace(t.last()) {
            assert(spec_is_whitespace(t[t.len() - 1]));
        }
    }
    lemma_collapse_identity(t, t.len() as int);
    assert(t.take(t.len() as int) =~= t);
    if t.len() > 0 {
        assert(t[t.len() - 1] != ' ') by {
            assert(spec_is_whitespace(' ')) by { assert((' ' as u32) == 0x20); }
        }
    }
}

/// Why a document conversion was refused.
#[derive(Debug, Clone, Copy, PartialEq, Eq, Structural)]
pub enum DocumentError {
    /// Rendering PDF pages needs the MuPDF backend, which this build lacks.
    PdfRenderingUnavailable,
    /// Reading PDF documents needs the MuPDF backend, which this build lacks.
    PdfUnavailable,
    /// No conversion between these two formats exists.
    Unsupported(Format, Format),
}

/// The message a refused document conversion reports.
pub fn document_error_message(e: &DocumentError) -> (r: String)
    ensures
        r@ == spec_document_error_message(*e),
{
    match e {
        DocumentError::PdfRenderingUnavailable => String::from_str("PDF rendering requires building with --features mupdf-backend"),
        DocumentError::PdfUnavailable => String::from_str("PDF operations require building with --features mupdf-backend"),
        DocumentError::Unsupported(src, target) => {
            let mut m = String::from_str("Document conversion ");
            m.append(src.name());
            m.append(" \u{2192} ");
            m.append(target.name());
            m.append(" not yet supported");
            m
        },
    }
}

/// The message of each refusal.
pub open spec fn spec_document_error_message(e: DocumentError) -> Seq<char> {
    match e {
        DocumentError::PdfRenderingUnavailable => "PDF rendering requires building with --features mupdf-backend"@,
        DocumentError::PdfUnavailable => "PDF operations require building with --features mupdf-backend"@,
        DocumentError::Unsupported(src, target) =>
            "Document conversion "@ + src.spec_name() + " \u{2192} "@ + target.spec_name() + " not yet supported"@,
    }
}

/// The transformation a document conversion applies to the text.
#[derive(Debug, Clone, Copy, PartialEq, Eq, Structural)]
pub enum DocumentJob {
    MarkdownToHtml,
    HtmlToText,
    MarkdownToText,
    TextToHtml,
}

/// The job of a document conversion from `src` to `target`, or why there is none.
pub open spec fn spec_plan(src: Format, target: Format) -> Result<DocumentJob, DocumentError> {
    match (src, target) {
        (Format::Markdown, Format::Html) => Ok(DocumentJob::MarkdownToHtml),
        (Format::Html, Format::PlainText) => Ok(DocumentJob::HtmlToText),
        (Format::Markdown, Format::PlainText) => Ok(DocumentJob::MarkdownToText),
        (Format::PlainText, Format::Html) => Ok(DocumentJob::TextToHtml),
        (Format::Pdf, Format::Png) | (Format::Pdf, Format::Jpeg) => Err(DocumentError::PdfRenderingUnavailable),
        (Format::Pdf, Format::Pdf) => Err(DocumentError::PdfUnavailable),
        _ => Err(DocumentError::Unsupported(src, target)),
    }
}

/// What a job makes of a text.
pub open spec fn spec_apply(job: DocumentJob, content: Seq<char>) -> Seq<char> {
    match job {
        DocumentJob::MarkdownToHtml => spec_md_to_html(content),
        DocumentJob::HtmlToText => spec_strip_html_tags(content),
        DocumentJob::MarkdownToText => spec_strip_html_tags(commonmark_html(content)),
        DocumentJob::TextToHtml => spec_text_to_html(content),
    }
}

/// Chooses the transformation for a document conversion: Markdown to HTML
/// or text, HTML to text, text to HTML. PDF input is refused, since this
/// build carries no PDF backend.
pub fn plan(src: &Format, target: &Format) -> (r: Result<DocumentJob, DocumentError>)
    ensures
        r == spec_plan(*src, *target),
{
    match (src, target) {
        (Format::Markdown, Format::Html) => Ok(DocumentJob::MarkdownToHtml),
        (Format::Html, Format::PlainText) => Ok(DocumentJob::HtmlToText),
        (Format::Markdown, Format::PlainText) => Ok(DocumentJob::MarkdownToText),
        (Format::PlainText, Format::Html) => Ok(DocumentJob::TextToHtml),
        (Format::Pdf, Format::Png) | (Format::Pdf, Format::Jpeg) => Err(DocumentError::PdfRenderingUnavailable),
        (Format::Pdf, Format::Pdf) => Err(DocumentError::PdfUnavailable),
        _ => Err(DocumentError::Unsupported(*src, *target)),
    }
}

/// Applies a document transformation to a text.
pub fn apply(job: DocumentJob, content: &str) -> (r: String)
    ensures
        r@ == spec_apply(job, content@),
{
    match job {
        DocumentJob::MarkdownToHtml => md_to_html(content),
        DocumentJob::HtmlToText => html_to_text(content),
        DocumentJob::MarkdownToText => md_to_text(content),
        DocumentJob::TextToHtml => text_to_html(content),
    }
}

/// Converts the text of a document from one format to another.
pub fn convert(content: &str, src: &Format, target: &Format) -> (r: Result<String, DocumentError>)
    ensures
        match (r, spec_plan(*src, *target)) {
            (Ok(out), Ok(job)) => out@ == spec_apply(job, content@),
            (Err(e), Err(f)) => e == f,
            _ => false,
        },
{
    match plan(src, target) {
        Ok(job) => Ok(apply(job, content)),
        Err(e) => Err(e),
    }
}

/// What each supported document conversion makes of the text it is given:
/// HTML to text strips the tags of the HTML itself and collapses its
/// whitespace, keeping exactly the non-whitespace characters outside tags;
/// Markdown to HTML wraps the rendering in a page; Markdown to text is the
/// text of that page; text to HTML puts the escaped text in a
/// preformatted block, whose text is the escaped text, collapsed.
pub proof fn lemma_document_conversions(c: Seq<char>)
    ensures
        spec_plan(Format::Html, Format::PlainText) matches Ok(job)
            && spec_apply(job, c) == collapse_whitespace(untagged(c))
            && non_whitespace(spec_apply(job, c)) == non_whitespace(untagged(c)),
        spec_plan(Format::Markdown, Format::Html) matches Ok(job)
            && spec_apply(job, c) == page_head() + commonmark_html(c) + page_tail(),
        spec_plan(Format::Markdown, Format::PlainText) matches Ok(job)
            && spec_apply(job, c) == spec_strip_html_tags(page_head() + commonmark_html(c) + page_tail()),
        spec_plan(Format::PlainText, Format::Html) matches Ok(job)
            && spec_apply(job, c) == page_head() + "<pre>"@ + escape_text(c) + "</pre>"@ + page_tail()
            && spec_strip_html_tags(spec_apply(job, c)) == collapse_whitespace(escape_text(c)),
{
    lemma_strip_html_tags_output(c);
    lemma_md_to_text_through_html(c);
    lemma_text_page_text(c);
}

/// Exactly four document conversions exist: Markdown to HTML, HTML to
/// text, Markdown to text and text to HTML; PDF input is refused for want
/// of a PDF backend (rendering to PNG or JPEG, or reading PDF as PDF), and
/// every other pair is refused naming both formats.
pub proof fn lemma_document_plan(src: Format, target: Format)
    ensures
        spec_plan(src, target) is Ok <==> ((src == Format::Markdown && target == Format::Html)
            || (src == Format::Html && target == Format::PlainText)
            || (src == Format::Markdown && target == Format::PlainText)
            || (src == Format::PlainText && target == Format::Html)),
        (src == Format::Pdf && (target == Format::Png || target == Format::Jpeg))
            ==> spec_plan(src, target) == Err::<DocumentJob, DocumentError>(DocumentError::PdfRenderingUnavailable),
        (src == Format::Pdf && target == Format::Pdf)
            ==> spec_plan(src, target) == Err::<DocumentJob, DocumentError>(DocumentError::PdfUnavailable),
        (src != Format::Pdf && spec_plan(src, target) is Err)
            ==> spec_plan(src, target) == Err::<DocumentJob, DocumentError>(DocumentError::Unsupported(src, target)),
{
}

} // verus!
