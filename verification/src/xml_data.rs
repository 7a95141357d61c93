//! XML to and from the JSON value model.
//!
//! Reading: every element becomes an object under its tag name, holding its
//! child elements by name and its text under `#text`; the last top-level
//! element, wrapped in an object under its name, is the result. Writing:
//! objects become nested elements, arrays repeat their tag, everything else
//! becomes the text of an element.

use vstd::prelude::*;
use crate::data::DataError;
use crate::json::{
    Json, Value, insert_member, json_of, json_of_items, json_of_members, json_wf, keys_sorted,
    lemma_json_of_members, lemma_members_insert_sorted, lemma_members_insert_wf,
    members_insert, members_wf, serde_json_compact, to_json_text, members_get, lemma_members_get_insert,
};
use crate::text::{is_whitespace, push_char, spec_is_whitespace};
use crate::document::{escape_markup, escape_text, has_no_brackets, lemma_escape_text_has_no_brackets};

verus! {

broadcast use vstd::std_specs::vec::group_vec_axioms, vstd::seq::group_seq_axioms;

/// An XML reader over text in memory; what it holds is opaque.
#[verifier::external_type_specification]
#[verifier::external_body]
#[verifier::reject_recursive_types(R)]
pub struct ExXmlReader<R>(quick_xml::Reader<R>);

/// An error of the XML reader; what it holds is opaque.
#[verifier::external_type_specification]
#[verifier::external_body]
pub struct ExXmlError(quick_xml::Error);

/// An error of XML unescaping; what it holds is opaque.
#[verifier::external_type_specification]
#[verifier::external_body]
pub struct ExXmlEscapeError(quick_xml::escape::EscapeError);

/// An XML reading event, as far as the conversion looks at it.
pub enum XmlEvent {
    /// A start tag, with its name.
    Start(String),
    /// An end tag.
    End,
    /// Character data between tags, still escaped.
    Text(String),
    /// The end of the document.
    Eof,
    /// Anything else: empty-element tags, comments, CDATA, declarations,
    /// processing instructions, document types.
    Other,
}

/// One step of reading XML: an event, or a failure of the reader.
pub enum XmlToken {
    Start(Seq<char>),
    End,
    Text(Seq<char>),
    Eof,
    Other,
    Failed,
}

impl XmlEvent {
    /// The token an event stands for.
    pub open spec fn token(self) -> XmlToken {
        match self {
            XmlEvent::Start(n) => XmlToken::Start(n@),
            XmlEvent::End => XmlToken::End,
            XmlEvent::Text(t) => XmlToken::Text(t@),
            XmlEvent::Eof => XmlToken::Eof,
            XmlEvent::Other => XmlToken::Other,
        }
    }
}

/// The tokens an XML reader has still to give, up to and including the
/// end of the document or its first failure.
pub uninterp spec fn xml_pending(r: quick_xml::Reader<&[u8]>) -> Seq<XmlToken>;

/// The tokens the XML reader gives for a text, with text trimming on, up to
/// and including the end of the document or the first failure.
pub uninterp spec fn xml_tokens(content: Seq<char>) -> Seq<XmlToken>;

/// The position of the first `a` or `b` in `s`, if any.
pub open spec fn first_of(s: Seq<char>, a: char, b: char) -> Option<int>
    decreases s.len(),
{
    if s.len() == 0 {
        None
    } else if s[0] == a || s[0] == b {
        Some(0)
    } else {
        match first_of(s.drop_first(), a, b) {
            Some(i) => Some(i + 1),
            None => None,
        }
    }
}

/// A position `first_of` gives lies in the text and holds `a` or `b`, and
/// neither stands before it.
pub proof fn lemma_first_of(s: Seq<char>, a: char, b: char)
    ensures
        first_of(s, a, b) matches Some(i) ==> 0 <= i < s.len() && (s[i] == a || s[i] == b)
            && forall|k: int| 0 <= k < i ==> #[trigger] s[k] != a && s[k] != b,
        first_of(s, a, b) is None ==> forall|k: int| 0 <= k < s.len() ==> #[trigger] s[k] != a && s[k] != b,
    decreases s.len(),
{
    if s.len() > 0 {
        let t = s.drop_first();
        lemma_first_of(t, a, b);
        assert forall|k: int| 1 <= k < s.len() implies #[trigger] s[k] == t[k - 1] by {}
    }
}

/// The value of a digit in base 10 or 16 (either letter case).
pub open spec fn digit_value(c: char, radix: int) -> Option<int> {
    if '0' <= c && c <= '9' {
        Some(c as int - '0' as int)
    } else if radix == 16 && 'a' <= c && c <= 'f' {
        Some(c as int - 'a' as int + 10)
    } else if radix == 16 && 'A' <= c && c <= 'F' {
        Some(c as int - 'A' as int + 10)
    } else {
        None
    }
}

/// The number the digits of `s` write in the radix, if all are digits.
pub open spec fn digits_value(s: Seq<char>, radix: int) -> Option<int>
    decreases s.len(),
{
    if s.len() == 0 {
        Some(0)
    } else {
        match (digits_value(s.drop_last(), radix), digit_value(s.last(), radix)) {
            (Some(v), Some(d)) => Some(v * radix + d),
            _ => None,
        }
    }
}

/// The character a character reference names (`#` already taken off):
/// decimal digits, or `x` and hexadecimal digits, naming a code point
/// other than zero that is a Unicode scalar value.
pub open spec fn char_reference(num: Seq<char>) -> Option<char> {
    let hex = num.len() > 0 && num[0] == 'x';
    let digits = if hex { num.drop_first() } else { num };
    if digits.len() == 0 {
        None
    } else {
        match digits_value(digits, if hex { 16 } else { 10 }) {
            Some(v) => if 0 < v <= 0x10FFFF && !(0xD800 <= v <= 0xDFFF) { Some(v as char) } else { None },
            None => None,
        }
    }
}

/// The text an entity or character reference stands for: the five
/// predefined XML entities and character references.
pub open spec fn entity_text(name: Seq<char>) -> Option<Seq<char>> {
    if name.len() > 0 && name[0] == '#' {
        match char_reference(name.drop_first()) {
            Some(c) => Some(seq![c]),
            None => None,
        }
    } else if name == seq!['l', 't'] {
        Some(seq!['<'])
    } else if name == seq!['g', 't'] {
        Some(seq!['>'])
    } else if name == seq!['a', 'm', 'p'] {
        Some(seq!['&'])
    } else if name == seq!['a', 'p', 'o', 's'] {
        Some(seq!['\''])
    } else if name == seq!['q', 'u', 'o', 't'] {
        Some(seq!['"'])
    } else {
        None
    }
}

/// What unescaping XML character data gives: each `&`, up to the next `;`,
/// is replaced by the text of the reference between them; `None` where an
/// `&` is followed by another `&` or by no `;` before the end, or names no
/// known reference.
pub open spec fn xml_unescaped(raw: Seq<char>) -> Option<Seq<char>>
    decreases raw.len(),
{
    match first_of(raw, '&', '&') {
        None => Some(raw),
        Some(i) => {
            let after = raw.skip(i + 1);
            match first_of(after, '&', ';') {
                None => None,
                Some(j) => {
                    proof {
                        lemma_first_of(raw, '&', '&');
                        lemma_first_of(after, '&', ';');
                    }
                    if after[j] == '&' {
                        None
                    } else {
                        match entity_text(after.take(j)) {
                            None => None,
                            Some(t) => match xml_unescaped(after.skip(j + 1)) {
                                Some(rest) => Some(raw.take(i) + t + rest),
                                None => None,
                            },
                        }
                    }
                },
            }
        },
    }
}

/// A token sequence that ends, with its last token and only its last
/// token, at the end of the document or a failure.
pub open spec fn well_ended(ts: Seq<XmlToken>) -> bool {
    &&& ts.len() > 0
    &&& (ts.last() is Eof || ts.last() is Failed)
    &&& forall|i: int| 0 <= i < ts.len() - 1 ==> !(#[trigger] ts[i] is Eof) && !(ts[i] is Failed)
}

/// Opens a reader on the text with `quick_xml::Reader::from_str` and turns
/// text trimming on. The reader goes through the text once: it gives
/// finitely many events and then the end of the document, unless it fails
/// first.
#[verifier::external_body]
fn xml_open<'a>(content: &'a str) -> (r: quick_xml::Reader<&'a [u8]>)
    ensures
        xml_pending(r) == xml_tokens(content@),
        well_ended(xml_pending(r)),
{
    let mut reader = quick_xml::Reader::from_str(content);
    reader.config_mut().trim_text(true);
    reader
}

/// Reads the next event with `quick_xml::Reader::read_event`, converting it:
/// a start tag gives its name (bytes read as UTF-8, lossily), character
/// data its raw text, and the kinds the conversion ignores give `Other`.
/// The first pending token is consumed.
#[verifier::external_body]
fn xml_next<'a>(r: &mut quick_xml::Reader<&'a [u8]>) -> (res: Result<XmlEvent, quick_xml::Error>)
    ensures
        xml_pending(*old(r)).len() > 0 ==> {
            &&& xml_pending(*final(r)) == xml_pending(*old(r)).drop_first()
            &&& match xml_pending(*old(r))[0] {
                XmlToken::Failed => res is Err,
                t => res matches Ok(e) && e.token() == t,
            }
        },
{
    match r.read_event() {
        Ok(quick_xml::events::Event::Start(e)) => Ok(XmlEvent::Start(String::from_utf8_lossy(e.name().as_ref()).into_owned())),
        Ok(quick_xml::events::Event::End(_)) => Ok(XmlEvent::End),
        Ok(quick_xml::events::Event::Text(e)) => Ok(XmlEvent::Text(String::from_utf8_lossy(&e).into_owned())),
        Ok(quick_xml::events::Event::Eof) => Ok(XmlEvent::Eof),
        Ok(_) => Ok(XmlEvent::Other),
        Err(e) => Err(e),
    }
}

/// Unescapes character data with `quick_xml::escape::unescape` (the
/// predefined entities and character references), which is what the
/// reader's text events do after decoding. Its rules, from
/// `escape::unescape_with`, `resolve_xml_entity` and `parse_number`, are
/// stated by `xml_unescaped`.
#[verifier::external_body]
fn xml_unescape(raw: &str) -> (r: Result<String, quick_xml::escape::EscapeError>)
    ensures
        match xml_unescaped(raw@) {
            Some(t) => r matches Ok(s) && s@ == t,
            None => r is Err,
        },
{
    quick_xml::escape::unescape(raw).map(|t| t.into_owned())
}

/// The message of an XML reader error, as its `Display` writes it.
#[verifier::external_body]
fn xml_error_text(e: &quick_xml::Error) -> String {
    e.to_string()
}

/// The message of an unescaping error, as its `Display` writes it.
#[verifier::external_body]
fn escape_error_text(e: &quick_xml::escape::EscapeError) -> String {
    e.to_string()
}

/// The open elements while reading: each tag name with its members so far.
pub type OpenElements = Seq<(Seq<char>, Seq<(Seq<char>, Json)>)>;

/// The state of reading: the open elements and the last finished
/// top-level element; or a failure.
pub enum XmlFold {
    Running(OpenElements, Option<Json>),
    Failed,
}

/// Every character is whitespace.
pub open spec fn all_whitespace(t: Seq<char>) -> bool {
    forall|i: int| 0 <= i < t.len() ==> spec_is_whitespace(#[trigger] t[i])
}

/// One token's effect on the reading state.
pub open spec fn xml_step(open: OpenElements, root: Option<Json>, t: XmlToken) -> XmlFold {
    match t {
        XmlToken::Start(name) => XmlFold::Running(open.push((name, Seq::empty())), root),
        XmlToken::End => if open.len() == 0 {
            XmlFold::Running(open, root)
        } else {
            let (name, members) = open.last();
            let rest = open.drop_last();
            if rest.len() == 0 {
                XmlFold::Running(rest, Some(Json::Object(seq![(name, Json::Object(members))])))
            } else {
                let (pname, pmembers) = rest.last();
                XmlFold::Running(rest.drop_last().push((pname, members_insert(pmembers, name, Json::Object(members)))), root)
            }
        },
        XmlToken::Text(raw) => match xml_unescaped(raw) {
            None => XmlFold::Failed,
            Some(text) => if all_whitespace(text) || open.len() == 0 {
                XmlFold::Running(open, root)
            } else {
                let (name, members) = open.last();
                XmlFold::Running(open.drop_last().push((name, members_insert(members, "#text"@, Json::Str(text)))), root)
            },
        },
        XmlToken::Failed => XmlFold::Failed,
        _ => XmlFold::Running(open, root),
    }
}

/// The reading state after a sequence of tokens.
pub open spec fn xml_fold(ts: Seq<XmlToken>) -> XmlFold
    decreases ts.len(),
{
    if ts.len() == 0 {
        XmlFold::Running(Seq::empty(), None)
    } else {
        match xml_fold(ts.drop_last()) {
            XmlFold::Failed => XmlFold::Failed,
            XmlFold::Running(open, root) => xml_step(open, root, ts.last()),
        }
    }
}

/// The outcome of reading XML.
pub enum XmlOutcome {
    /// The last top-level element, wrapped in an object under its name.
    Tree(Json),
    /// No top-level element was closed.
    NoRoot,
    /// The reader or the unescaping failed.
    Failed,
}

/// What reading the tokens of an XML text gives.
pub open spec fn spec_xml_to_json(ts: Seq<XmlToken>) -> XmlOutcome {
    match xml_fold(ts) {
        XmlFold::Failed => XmlOutcome::Failed,
        XmlFold::Running(_, Some(j)) => XmlOutcome::Tree(j),
        XmlFold::Running(_, None) => XmlOutcome::NoRoot,
    }
}

/// The view of the open elements the reader keeps.
pub open spec fn open_view(stack: Seq<(String, Vec<(String, Value)>)>) -> OpenElements {
    stack.map_values(|e: (String, Vec<(String, Value)>)| (e.0@, json_of_members(e.1@)))
}

/// The view of the last finished element.
pub open spec fn root_view(root: Option<Value>) -> Option<Json> {
    match root {
        Some(v) => Some(json_of(v)),
        None => None,
    }
}

/// Whether a text is whitespace throughout.
fn is_blank(t: &str) -> (r: bool)
    ensures
        r == all_whitespace(t@),
{
    let mut chars = t.chars();
    for c in it: chars
        invariant
            it.seq() == t@,
            forall|i: int| 0 <= i < it.index() ==> spec_is_whitespace(#[trigger] t@[i]),
    {
        if !is_whitespace(c) {
            return false;
        }
    }
    true
}

/// Once reading has failed, it stays failed.
proof fn lemma_xml_fold_failed(ts: Seq<XmlToken>, k: int)
    requires
        0 <= k <= ts.len(),
        xml_fold(ts.take(k)) is Failed,
    ensures
        xml_fold(ts) is Failed,
    decreases ts.len() - k,
{
    if k < ts.len() {
        assert(ts.take(k + 1).drop_last() =~= ts.take(k));
        lemma_xml_fold_failed(ts, k + 1);
    } else {
        assert(ts.take(k) =~= ts);
    }
}

/// Reads an XML document into the JSON value model.
pub fn xml_to_json(content: &str) -> (r: Result<Value, DataError>)
    ensures
        match spec_xml_to_json(xml_tokens(content@)) {
            XmlOutcome::Tree(j) => r matches Ok(v) && json_of(v) == j,
            XmlOutcome::NoRoot => r matches Err(DataError::XmlNoRoot),
            XmlOutcome::Failed => r matches Err(DataError::Xml(_)),
        },
{
    let mut reader = xml_open(content);
    let ghost ts = xml_tokens(content@);
    let mut stack: Vec<(String, Vec<(String, Value)>)> = Vec::new();
    let mut root: Option<Value> = None;
    let ghost mut k: int = 0;
    proof {
        assert(ts.take(0) =~= Seq::<XmlToken>::empty());
        assert(open_view(stack@) =~= Seq::<(Seq<char>, Seq<(Seq<char>, Json)>)>::empty());
        assert(ts.skip(0) =~= ts);
    }
    loop
        invariant
            ts == xml_tokens(content@),
            well_ended(ts),
            0 <= k < ts.len(),
            xml_pending(reader) == ts.skip(k),
            xml_fold(ts.take(k)) == XmlFold::Running(open_view(stack@), root_view(root)),
        decreases ts.len() - k,
    {
        let ghost open0 = open_view(stack@);
        let ghost root0 = root_view(root);
        proof {
            assert(ts.skip(k)[0] == ts[k]);
            assert(ts.skip(k).drop_first() =~= ts.skip(k + 1));
            assert(ts.take(k + 1).drop_last() =~= ts.take(k));
            assert(ts.take(k + 1).last() == ts[k]);
        }
        let event = match xml_next(&mut reader) {
            Ok(e) => e,
            Err(e) => {
                proof {
                    lemma_xml_fold_failed(ts, k + 1);
                }
                return Err(DataError::Xml(xml_error_text(&e)));
            },
        };
        match event {
            XmlEvent::Start(name) => {
                let ghost n = name@;
                stack.push((name, Vec::new()));
                proof {
                    assert(json_of_members(Seq::<(String, Value)>::empty()) =~= Seq::<(Seq<char>, Json)>::empty());
                    assert(open_view(stack@) =~= open0.push((n, Seq::empty())));
                }
            },
            XmlEvent::End => {
                if stack.len() > 0 {
                    let ghost s0 = stack@;
                    let (name, members) = stack.pop().unwrap();
                    let ghost nm = name@;
                    let ghost mv = json_of_members(members@);
                    proof {
                        assert(stack@ =~= s0.drop_last());
                        assert(open_view(stack@) =~= open0.drop_last());
                        assert(open0.last() == (nm, mv));
                    }
                    let val = Value::Object(members);
                    if stack.len() == 0 {
                        let mut wrapper: Vec<(String, Value)> = Vec::new();
                        wrapper.push((name, val));
                        proof {
                            lemma_json_of_members(wrapper@);
                            assert(wrapper@[0].1 == val);
                            assert(json_of(val) == Json::Object(mv));
                            assert(json_of_members(wrapper@) =~= seq![(nm, Json::Object(mv))]);
                        }
                        root = Some(Value::Object(wrapper));
                    } else {
                        let ghost s1 = stack@;
                        let (pname, mut pmembers) = stack.pop().unwrap();
                        let ghost pm = json_of_members(pmembers@);
                        proof {
                            assert(open_view(s1).last() == (pname@, pm));
                            assert(open_view(stack@) =~= open_view(s1).drop_last());
                        }
                        insert_member(&mut pmembers, name, val);
                        let ghost pn = pname@;
                        stack.push((pname, pmembers));
                        proof {
                            assert(open_view(stack@) =~= open_view(s1).drop_last().push((pn, members_insert(pm, nm, Json::Object(mv)))));
                        }
                    }
                }
            },
            XmlEvent::Text(raw) => {
                let text = match xml_unescape(raw.as_str()) {
                    Ok(t) => t,
                    Err(e) => {
                        proof {
                            lemma_xml_fold_failed(ts, k + 1);
                        }
                        return Err(DataError::Xml(escape_error_text(&e)));
                    },
                };
                if !is_blank(text.as_str()) && stack.len() > 0 {
                    let ghost s0 = stack@;
                    let (name, mut members) = stack.pop().unwrap();
                    let ghost m0 = json_of_members(members@);
                    let ghost tv = text@;
                    proof {
                        assert(open0.last() == (name@, m0));
                        assert(open_view(stack@) =~= open0.drop_last());
                    }
                    let key = String::from_str("#text");
                    insert_member(&mut members, key, Value::String(text));
                    let ghost nm = name@;
                    stack.push((name, members));
                    proof {
                        assert(open_view(stack@) =~= open0.drop_last().push((nm, members_insert(m0, "#text"@, Json::Str(tv)))));
                    }
                }
            },
            XmlEvent::Eof => {
                proof {
                    assert(k + 1 == ts.len());
                    assert(ts.take(k + 1) =~= ts);
                }
                return match root {
                    Some(v) => Ok(v),
                    None => Err(DataError::XmlNoRoot),
                };
            },
            XmlEvent::Other => {},
        }
        proof {
            k = k + 1;
        }
    }
}


/// An element with text content: `<tag>text</tag>`.
pub open spec fn element(tag: Seq<char>, content: Seq<char>) -> Seq<char> {
    seq!['<'] + tag + seq!['>'] + content + seq!['<', '/'] + tag + seq!['>']
}

/// The XML a value is written as under a tag: an object becomes an element
/// holding its members as elements named by their keys; an array repeats
/// the tag for each item; a string is the element's text, with `&`, `<`
/// and `>` escaped as entities; any other value is the element's text in
/// its JSON form.
pub open spec fn xml_of(tag: Seq<char>, j: Json) -> Seq<char>
    decreases j, 0nat,
{
    match j {
        Json::Object(ms) => element(tag, xml_members(ms)),
        Json::Array(items) => xml_items(tag, items),
        Json::Str(s) => element(tag, escape_text(s)),
        _ => element(tag, serde_json_compact(j)),
    }
}

/// The members of an object, each written under its key.
pub open spec fn xml_members(ms: Seq<(Seq<char>, Json)>) -> Seq<char>
    decreases ms, 1nat,
{
    if ms.len() == 0 {
        Seq::empty()
    } else {
        xml_members(ms.drop_last()) + xml_of(ms.last().0, ms.last().1)
    }
}

/// The items of an array, each written under the same tag.
pub open spec fn xml_items(tag: Seq<char>, items: Seq<Json>) -> Seq<char>
    decreases items, 1nat,
{
    if items.len() == 0 {
        Seq::empty()
    } else {
        xml_items(tag, items.drop_last()) + xml_of(tag, items.last())
    }
}

/// The XML declaration that starts every written document.
pub open spec fn xml_declaration() -> Seq<char> {
    "<?xml version=\"1.0\" encoding=\"UTF-8\"?>\n"@
}

fn open_tag(out: &mut String, tag: &str)
    ensures
        final(out)@ == old(out)@ + seq!['<'] + tag@ + seq!['>'],
{
    push_char(out, '<');
    out.append(tag);
    push_char(out, '>');
    proof {
        assert(out@ =~= old(out)@ + seq!['<'] + tag@ + seq!['>']);
    }
}

fn close_tag(out: &mut String, tag: &str)
    ensures
        final(out)@ == old(out)@ + seq!['<', '/'] + tag@ + seq!['>'],
{
    push_char(out, '<');
    push_char(out, '/');
    out.append(tag);
    push_char(out, '>');
    proof {
        assert(out@ =~= old(out)@ + seq!['<', '/'] + tag@ + seq!['>']);
    }
}

/// Appends the XML of a value under a tag to `out`.
pub fn write_xml_value(out: &mut String, tag: &str, value: &Value)
    ensures
        final(out)@ == old(out)@ + xml_of(tag@, json_of(*value)),
    decreases value,
{
    match value {
        Value::Object(ms) => {
            let ghost start = out@;
            open_tag(out, tag);
            let ghost mid = out@;
            let n = ms.len();
            let mut i: usize = 0;
            proof {
                assert(json_of_members(ms@.take(0)) =~= Seq::<(Seq<char>, Json)>::empty());
                assert(mid =~= mid + xml_members(Seq::<(Seq<char>, Json)>::empty()));
            }
            while i < n
                invariant
                    n == ms@.len(),
                    i <= n,
                    *value == Value::Object(*ms),
                    out@ == mid + xml_members(json_of_members(ms@.take(i as int))),
                decreases n - i,
            {
                proof {
                    assert(ms@.take(i + 1).drop_last() =~= ms@.take(i as int));
                    assert(ms@.take(i + 1).last() == ms@[i as int]);
                    assert(decreases_to!(*value => (*value)->Object_0));
                    assert((*value)->Object_0 == *ms);
                    assert(decreases_to!(*ms => ms[i as int]));
                    assert(decreases_to!(ms[i as int] => ms[i as int].1));
                }
                let ghost before = out@;
                write_xml_value(out, ms[i].0.as_str(), &ms[i].1);
                proof {
                    let js = json_of_members(ms@.take(i + 1));
                    assert(js.drop_last() == json_of_members(ms@.take(i as int)));
                    assert(js.last() == (ms@[i as int].0@, json_of(ms@[i as int].1)));
                    assert(out@ =~= mid + xml_members(js));
                }
                i = i + 1;
            }
            proof {
                assert(ms@.take(n as int) =~= ms@);
            }
            close_tag(out, tag);
            proof {
                assert(out@ =~= start + element(tag@, xml_members(json_of_members(ms@))));
            }
        },
        Value::Array(items) => {
            let ghost start = out@;
            let n = items.len();
            let mut i: usize = 0;
            proof {
                assert(json_of_items(items@.take(0)) =~= Seq::<Json>::empty());
                assert(start =~= start + xml_items(tag@, Seq::<Json>::empty()));
            }
            while i < n
                invariant
                    n == items@.len(),
                    i <= n,
                    *value == Value::Array(*items),
                    out@ == start + xml_items(tag@, json_of_items(items@.take(i as int))),
                decreases n - i,
            {
                proof {
                    assert(items@.take(i + 1).drop_last() =~= items@.take(i as int));
                    assert(items@.take(i + 1).last() == items@[i as int]);
                    assert(decreases_to!(*value => (*value)->Array_0));
                    assert((*value)->Array_0 == *items);
                    assert(decreases_to!(*items => items[i as int]));
                }
                write_xml_value(out, tag, &items[i]);
                proof {
                    let js = json_of_items(items@.take(i + 1));
                    assert(js.drop_last() == json_of_items(items@.take(i as int)));
                    assert(js.last() == json_of(items@[i as int]));
                    assert(out@ =~= start + xml_items(tag@, js));
                }
                i = i + 1;
            }
            proof {
                assert(items@.take(n as int) =~= items@);
            }
        },
        Value::String(s) => {
            let text = escape_markup(s.as_str());
            open_tag(out, tag);
            out.append(text.as_str());
            close_tag(out, tag);
            proof {
                assert(out@ =~= old(out)@ + element(tag@, escape_text(s@)));
            }
        },
        _ => {
            open_tag(out, tag);
            let text = to_json_text(value);
            out.append(text.as_str());
            close_tag(out, tag);
            proof {
                assert(out@ =~= old(out)@ + element(tag@, serde_json_compact(json_of(*value))));
            }
        },
    }
}

/// A string is written as the text of its element with no tag bracket in
/// it: whatever the string holds, it cannot open or close an element.
pub proof fn lemma_xml_string_is_character_data(tag: Seq<char>, s: Seq<char>)
    ensures
        xml_of(tag, Json::Str(s)) == element(tag, escape_text(s)),
        has_no_brackets(escape_text(s)),
{
    lemma_escape_text_has_no_brackets(s);
}

/// Writes a value as an XML document: the declaration, then the value
/// under the tag `root`.
pub fn json_to_xml(value: &Value) -> (r: String)
    ensures
        r@ == xml_declaration() + xml_of("root"@, json_of(*value)),
{
    let mut out = String::from_str("<?xml version=\"1.0\" encoding=\"UTF-8\"?>\n");
    write_xml_value(&mut out, "root", value);
    out
}


/// The invariant of reading: every open element's members are sorted and
/// well formed, and a finished top-level element is a well-formed object
/// with exactly one member, an object under the element's name.
pub open spec fn fold_ok(f: XmlFold) -> bool {
    match f {
        XmlFold::Failed => true,
        XmlFold::Running(open, root) => open_ok(open) && root_ok(root),
    }
}

/// Every open element's members are sorted and well formed.
pub open spec fn open_ok(open: OpenElements) -> bool {
    forall|i: int| 0 <= i < open.len() ==> keys_sorted((#[trigger] open[i]).1) && members_wf(open[i].1)
}

/// A finished top-level element, if any, is a document tree.
pub open spec fn root_ok(root: Option<Json>) -> bool {
    match root {
        Some(j) => root_shaped(j),
        None => true,
    }
}

/// A document tree: an object with one member, whose value is an object,
/// well formed throughout.
pub open spec fn root_shaped(j: Json) -> bool {
    &&& j matches Json::Object(ms) && ms.len() == 1 && ms[0].1 is Object
    &&& json_wf(j)
}

proof fn lemma_xml_step_ok(open: OpenElements, root: Option<Json>, t: XmlToken)
    requires
        fold_ok(XmlFold::Running(open, root)),
    ensures
        fold_ok(xml_step(open, root, t)),
{
    assert(open_ok(open));
    assert(members_wf(Seq::<(Seq<char>, Json)>::empty()));
    assert(keys_sorted(Seq::<(Seq<char>, Json)>::empty()));
    match t {
        XmlToken::Start(name) => {
            let o2 = open.push((name, Seq::empty()));
            assert forall|i: int| 0 <= i < o2.len() implies keys_sorted((#[trigger] o2[i]).1) && members_wf(o2[i].1) by {
                if i < open.len() {
                    assert(o2[i] == open[i]);
                } else {
                    assert(o2[i].1 =~= Seq::<(Seq<char>, Json)>::empty());
                    assert(members_wf(o2[i].1));
                }
            }
        },
        XmlToken::End => {
            if open.len() > 0 {
                let name = open.last().0;
                let members = open.last().1;
                let rest = open.drop_last();
                let top = open[open.len() - 1];
                assert(keys_sorted(top.1) && members_wf(top.1));
                assert(top == open.last());
                let val = Json::Object(members);
                assert(json_wf(val));
                if rest.len() == 0 {
                    let ms = seq![(name, val)];
                    assert(ms.drop_last() =~= Seq::<(Seq<char>, Json)>::empty());
                    assert(ms.last() == (name, val));
                    assert(members_wf(ms));
                    assert(json_wf(Json::Object(ms)));
                } else {
                    let (pname, pmembers) = rest.last();
                    assert(keys_sorted(pmembers) && members_wf(pmembers)) by {
                        assert(open[rest.len() - 1] == rest.last());
                    }
                    lemma_members_insert_sorted(pmembers, name, val);
                    lemma_members_insert_wf(pmembers, name, val);
                    let o2 = rest.drop_last().push((pname, members_insert(pmembers, name, val)));
                    assert forall|i: int| 0 <= i < o2.len() implies keys_sorted((#[trigger] o2[i]).1) && members_wf(o2[i].1) by {
                        if i < rest.len() - 1 {
                            assert(o2[i] == open[i]);
                        }
                    }
                }
            }
        },
        XmlToken::Text(raw) => {
            if let Some(text) = xml_unescaped(raw) {
                if !(all_whitespace(text) || open.len() == 0) {
                    let (name, members) = open.last();
                    assert(keys_sorted(members) && members_wf(members)) by {
                        assert(open[open.len() - 1] == open.last());
                    }
                    assert(json_wf(Json::Str(text)));
                    lemma_members_insert_sorted(members, "#text"@, Json::Str(text));
                    lemma_members_insert_wf(members, "#text"@, Json::Str(text));
                    let o2 = open.drop_last().push((name, members_insert(members, "#text"@, Json::Str(text))));
                    assert forall|i: int| 0 <= i < o2.len() implies keys_sorted((#[trigger] o2[i]).1) && members_wf(o2[i].1) by {
                        if i < open.len() - 1 {
                            assert(o2[i] == open[i]);
                        }
                    }
                }
            }
        },
        _ => {},
    }
}

proof fn lemma_xml_fold_ok(ts: Seq<XmlToken>)
    ensures
        fold_ok(xml_fold(ts)),
    decreases ts.len(),
{
    if ts.len() > 0 {
        lemma_xml_fold_ok(ts.drop_last());
        if let XmlFold::Running(open, root) = xml_fold(ts.drop_last()) {
            lemma_xml_step_ok(open, root, ts.last());
        }
    }
}

/// XML read into JSON gives a document tree: an object with one member,
/// the root element's name, holding an object; every object in it has its
/// keys sorted, each once, as the JSON library's map keeps them.
pub proof fn lemma_xml_to_json_shape(ts: Seq<XmlToken>)
    ensures
        spec_xml_to_json(ts) matches XmlOutcome::Tree(j) ==> root_shaped(j),
{
    lemma_xml_fold_ok(ts);
}

/// Reading one more token, element by element: a start tag opens a new,
/// empty innermost element and leaves the others as they were; an end tag
/// closes the innermost element, which becomes a member, under its name, of
/// the element that encloses it (every other open element unchanged, and
/// the enclosing one keeping all its other members), or, with nothing
/// enclosing it, the document's result; character data that is not blank
/// becomes the innermost element's `#text`, everything else unchanged;
/// blank character data changes nothing, and a reference that does not
/// resolve fails the reading.
pub proof fn lemma_xml_reading_step(ts: Seq<XmlToken>, t: XmlToken)
    requires
        xml_fold(ts) is Running,
    ensures
        ({
            let open = xml_fold(ts)->Running_0;
            let root = xml_fold(ts)->Running_1;
            let after = xml_fold(ts.push(t));
            let n = open.len();
            &&& t matches XmlToken::Start(name) ==> after == XmlFold::Running(open.push((name, Seq::empty())), root)
            &&& (t is End && n >= 2) ==> ({
                let open2 = after->Running_0;
                &&& after is Running
                &&& after->Running_1 == root
                &&& open2.len() == n - 1
                &&& forall|i: int| 0 <= i < n - 2 ==> #[trigger] open2[i] == open[i]
                &&& open2[n - 2].0 == open[n - 2].0
                &&& members_get(open2[n - 2].1, open[n - 1].0) == Some(Json::Object(open[n - 1].1))
                &&& forall|k: Seq<char>| k != open[n - 1].0
                    ==> #[trigger] members_get(open2[n - 2].1, k) == members_get(open[n - 2].1, k)
            })
            &&& (t is End && n == 1) ==> after == XmlFold::Running(Seq::empty(),
                Some(Json::Object(seq![(open[0].0, Json::Object(open[0].1))])))
            &&& (t is End && n == 0) ==> after == XmlFold::Running(open, root)
            &&& t matches XmlToken::Text(raw) ==> match xml_unescaped(raw) {
                None => after is Failed,
                Some(text) => if all_whitespace(text) || n == 0 {
                    after == XmlFold::Running(open, root)
                } else {
                    let open2 = after->Running_0;
                    &&& after is Running
                    &&& after->Running_1 == root
                    &&& open2.len() == n
                    &&& forall|i: int| 0 <= i < n - 1 ==> #[trigger] open2[i] == open[i]
                    &&& open2[n - 1].0 == open[n - 1].0
                    &&& members_get(open2[n - 1].1, "#text"@) == Some(Json::Str(text))
                    &&& forall|k: Seq<char>| k != "#text"@
                        ==> #[trigger] members_get(open2[n - 1].1, k) == members_get(open[n - 1].1, k)
                },
            }
        }),
{
    let open = xml_fold(ts)->Running_0;
    let n = open.len();
    assert(ts.push(t).drop_last() =~= ts);
    assert(ts.push(t).last() == t);
    if t is End && n >= 2 {
        let rest = open.drop_last();
        let (pname, pmembers) = rest.last();
        let name = open.last().0;
        let members = open.last().1;
        assert(rest.last() == open[n - 2]);
        assert(open.last() == open[n - 1]);
        assert forall|k: Seq<char>| k != open[n - 1].0
            implies #[trigger] members_get(members_insert(pmembers, name, Json::Object(members)), k) == members_get(pmembers, k) by {
            lemma_members_get_insert(pmembers, name, Json::Object(members), k);
        }
        lemma_members_get_insert(pmembers, name, Json::Object(members), name);
    }
    if t is End && n == 1 {
        assert(open.drop_last() =~= Seq::<(Seq<char>, Seq<(Seq<char>, Json)>)>::empty());
    }
    if let XmlToken::Text(raw) = t {
        if let Some(text) = xml_unescaped(raw) {
            if !(all_whitespace(text) || n == 0) {
                let (name, members) = open.last();
                assert(open.last() == open[n - 1]);
                assert forall|k: Seq<char>| k != "#text"@
                    implies #[trigger] members_get(members_insert(members, "#text"@, Json::Str(text)), k) == members_get(members, k) by {
                    lemma_members_get_insert(members, "#text"@, Json::Str(text), k);
                }
                lemma_members_get_insert(members, "#text"@, Json::Str(text), "#text"@);
            }
        }
    }
}

/// The texts of a sequence, one after the other.
pub open spec fn concat_texts(ts: Seq<Seq<char>>) -> Seq<char>
    decreases ts.len(),
{
    if ts.len() == 0 {
        Seq::empty()
    } else {
        concat_texts(ts.drop_last()) + ts.last()
    }
}

proof fn lemma_xml_members_concat(ms: Seq<(Seq<char>, Json)>)
    ensures
        xml_members(ms) == concat_texts(ms.map_values(|m: (Seq<char>, Json)| xml_of(m.0, m.1))),
    decreases ms.len(),
{
    if ms.len() > 0 {
        lemma_xml_members_concat(ms.drop_last());
        let f = |m: (Seq<char>, Json)| xml_of(m.0, m.1);
        assert(ms.map_values(f).drop_last() =~= ms.drop_last().map_values(f));
        assert(ms.map_values(f).last() == f(ms.last()));
    } else {
        assert(ms.map_values(|m: (Seq<char>, Json)| xml_of(m.0, m.1)) =~= Seq::<Seq<char>>::empty());
    }
}

proof fn lemma_xml_items_concat(tag: Seq<char>, items: Seq<Json>)
    ensures
        xml_items(tag, items) == concat_texts(items.map_values(|j: Json| xml_of(tag, j))),
    decreases items.len(),
{
    if items.len() > 0 {
        lemma_xml_items_concat(tag, items.drop_last());
        let f = |j: Json| xml_of(tag, j);
        assert(items.map_values(f).drop_last() =~= items.drop_last().map_values(f));
        assert(items.map_values(f).last() == f(items.last()));
    } else {
        assert(items.map_values(|j: Json| xml_of(tag, j)) =~= Seq::<Seq<char>>::empty());
    }
}

/// How values are written as XML: an object is one element under the tag
/// whose content is the XML of every member under its own key, in order,
/// whatever the members hold (objects included); an array is the XML of
/// every item under the same tag, in order; a string is the element's
/// escaped text; any other value is the element with the value's compact
/// JSON text.
pub proof fn lemma_xml_writing(tag: Seq<char>, j: Json)
    ensures
        j matches Json::Object(ms) ==> xml_of(tag, j)
            == element(tag, concat_texts(ms.map_values(|m: (Seq<char>, Json)| xml_of(m.0, m.1)))),
        j matches Json::Array(items) ==> xml_of(tag, j) == concat_texts(items.map_values(|i: Json| xml_of(tag, i))),
        j matches Json::Str(s) ==> xml_of(tag, j) == element(tag, escape_text(s)),
        (j is Null || j is Bool || j is Number) ==> xml_of(tag, j) == element(tag, serde_json_compact(j)),
        forall|k: Seq<char>, v: Json| #[trigger] xml_of(tag, Json::Object(seq![(k, v)])) == element(tag, xml_of(k, v)),
{
    if let Json::Object(ms) = j {
        lemma_xml_members_concat(ms);
    }
    if let Json::Array(items) = j {
        lemma_xml_items_concat(tag, items);
    }
    assert forall|k: Seq<char>, v: Json| #[trigger] xml_of(tag, Json::Object(seq![(k, v)])) == element(tag, xml_of(k, v)) by {
        let ms = seq![(k, v)];
        assert(ms.drop_last() =~= Seq::<(Seq<char>, Json)>::empty());
        assert(ms.last() == (k, v));
        assert(xml_members(ms.drop_last()) =~= Seq::<char>::empty());
        assert(xml_members(ms) == xml_members(ms.drop_last()) + xml_of(k, v));
        assert(xml_members(ms) =~= xml_of(k, v));
    }
}

} // verus!
