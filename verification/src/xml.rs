//! XML text building blocks: escaping, start and end tags, text elements,
//! and the events of a parsed document.
//!
//! Escaping is quick-xml's; the layout (no indentation, attributes each
//! after one space, values in double quotes) is that of quick-xml's writer.

use vstd::prelude::*;

use std::borrow::Cow;

use quick_xml::events::Event;
use quick_xml::Reader;

use crate::text::{push_char, push_str};

verus! {

/// What quick-xml's `escape` puts in place of one character.
pub open spec fn escaped_char(c: char) -> Seq<char> {
    if c == '<' {
        "&lt;"@
    } else if c == '>' {
        "&gt;"@
    } else if c == '&' {
        "&amp;"@
    } else if c == '\'' {
        "&apos;"@
    } else if c == '"' {
        "&quot;"@
    } else {
        seq![c]
    }
}

/// The XML-escaped form of a text: each of `< > & ' "` replaced by its
/// entity, every other character kept.
pub open spec fn escape_spec(s: Seq<char>) -> Seq<char>
    decreases s.len(),
{
    if s.len() == 0 {
        Seq::empty()
    } else {
        escape_spec(s.drop_last()) + escaped_char(s.last())
    }
}

/// Escape a text for XML content or an attribute value.
///
/// Calls quick-xml's `escape::escape`, which replaces `<`, `>`, `&`, `'`
/// and `"` by `&lt;`, `&gt;`, `&amp;`, `&apos;` and `&quot;` and keeps every
/// other character; the contract states exactly that.
#[verifier::external_body]
pub(crate) fn escape_xml(s: &str) -> (r: String)
    ensures
        r@ == escape_spec(s@),
{
    quick_xml::escape::escape(s).into_owned()
}

/// The attributes of a start tag, each as ` key="escaped value"`.
pub open spec fn attrs_spec(attrs: Seq<(Seq<char>, Seq<char>)>) -> Seq<char>
    decreases attrs.len(),
{
    if attrs.len() == 0 {
        Seq::empty()
    } else {
        attrs_spec(attrs.drop_last()) + seq![' '] + attrs.last().0 + "=\""@ + escape_spec(
            attrs.last().1,
        ) + seq!['"']
    }
}

/// A start tag: `<name attrs>`.
pub open spec fn start_tag(name: Seq<char>, attrs: Seq<(Seq<char>, Seq<char>)>) -> Seq<char> {
    seq!['<'] + name + attrs_spec(attrs) + seq!['>']
}

/// An end tag: `</name>`.
pub open spec fn end_tag(name: Seq<char>) -> Seq<char> {
    "</"@ + name + seq!['>']
}

/// An element holding only escaped text.
pub open spec fn text_element(name: Seq<char>, text: Seq<char>) -> Seq<char> {
    start_tag(name, Seq::empty()) + escape_spec(text) + end_tag(name)
}

/// The view of a list of attribute pairs.
pub open spec fn pairs_view(v: Seq<(&str, &str)>) -> Seq<(Seq<char>, Seq<char>)> {
    v.map_values(|p: (&str, &str)| (p.0@, p.1@))
}

/// Append a start tag with its attributes.
pub fn push_start(out: &mut String, name: &str, attrs: &[(&str, &str)])
    ensures
        final(out)@ == old(out)@ + start_tag(name@, pairs_view(attrs@)),
{
    push_char(out, '<');
    push_str(out, name);
    let ghost base = out@;
    let mut i: usize = 0;
    while i < attrs.len()
        invariant
            i <= attrs@.len(),
            out@ == base + attrs_spec(pairs_view(attrs@.take(i as int))),
        decreases attrs.len() - i,
    {
        let (k, v) = attrs[i];
        push_char(out, ' ');
        push_str(out, k);
        push_str(out, "=\"");
        let e = escape_xml(v);
        push_str(out, e.as_str());
        push_char(out, '"');
        proof {
            let p = pairs_view(attrs@.take(i + 1));
            assert(p.drop_last() =~= pairs_view(attrs@.take(i as int)));
            assert(p.last() == (k@, v@));
        }
        i = i + 1;
    }
    assert(attrs@.take(attrs@.len() as int) =~= attrs@);
    push_char(out, '>');
}

/// Append an end tag.
pub fn push_end(out: &mut String, name: &str)
    ensures
        final(out)@ == old(out)@ + end_tag(name@),
{
    push_str(out, "</");
    push_str(out, name);
    push_char(out, '>');
}

/// Append an element that holds escaped text.
pub fn push_text_element(out: &mut String, name: &str, text: &str)
    ensures
        final(out)@ == old(out)@ + text_element(name@, text@),
{
    push_start(out, name, &[]);
    assert(pairs_view(Seq::<(&str, &str)>::empty()) =~= Seq::empty());
    let e = escape_xml(text);
    push_str(out, e.as_str());
    push_end(out, name);
}

/// One event of a parsed XML document, as far as the SOAP layer reads it.
#[derive(Debug)]
pub enum XmlEvent {
    /// An opening tag, with the bytes of its qualified name.
    Start(Vec<u8>),
    /// A closing tag, with the bytes of its qualified name.
    End(Vec<u8>),
    /// Text between tags, unescaped, or why unescaping failed.
    Text(Result<String, String>),
    /// Anything else (declarations, comments, empty elements, ...).
    Other,
    /// The document is malformed here; reading stops.
    Error(String),
}

/// The events that quick-xml's reader yields for a document, up to its end
/// or up to and including the first error.
pub uninterp spec fn xml_events(body: Seq<u8>) -> Seq<XmlEvent>;

/// Read every event of a document with quick-xml's `Reader`.
///
/// Text is unescaped with `BytesText::unescape`; reading stops at the end
/// of the input or after the first error. The contract names the result:
/// it is a function of the bytes alone.
#[verifier::external_body]
pub(crate) fn read_xml_events(body: &[u8]) -> (r: Vec<XmlEvent>)
    ensures
        r@ == xml_events(body@),
{
    let (mut reader, mut out, mut go) = (Reader::from_reader(body), Vec::new(), true);
    while go {
        out.push(match reader.read_event_into(&mut Vec::new()) {
            Ok(Event::Start(e)) => XmlEvent::Start(e.name().0.to_vec()),
            Ok(Event::End(e)) => XmlEvent::End(e.name().0.to_vec()),
            Ok(Event::Text(e)) => XmlEvent::Text(e.unescape().map(Cow::into_owned).map_err(|e| e.to_string())),
            Ok(Event::Eof) => return out,
            Ok(_) => XmlEvent::Other,
            Err(e) => {
                go = false;
                XmlEvent::Error(e.to_string())
            },
        });
    }
    out
}

} // verus!
