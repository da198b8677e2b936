//! XML documents as sequences of events, rendered by `quick_xml`.
use vstd::prelude::*;

use quick_xml::events::{BytesDecl, BytesEnd, BytesStart, BytesText, Event};
use quick_xml::Writer;

verus! {

#[verifier::external_type_specification]
#[verifier::external_body]
#[verifier::reject_recursive_types(W)]
pub struct ExXmlWriter<W>(Writer<W>);

#[verifier::external_type_specification]
#[verifier::external_body]
pub struct ExXmlError(quick_xml::Error);

/// An element name with its attributes, in order.
#[derive(Debug)]
pub struct XmlTag {
    pub name: String,
    pub attrs: Vec<(String, String)>,
}

/// One step of an XML document.
#[derive(Debug)]
pub enum XmlEvent {
    /// The declaration, with its version and encoding.
    Decl(String, String),
    Start(XmlTag),
    Empty(XmlTag),
    End(String),
    Text(String),
}

pub struct XmlTagView {
    pub name: Seq<char>,
    pub attrs: Seq<(Seq<char>, Seq<char>)>,
}

pub enum XmlEventView {
    Decl(Seq<char>, Seq<char>),
    Start(XmlTagView),
    Empty(XmlTagView),
    End(Seq<char>),
    Text(Seq<char>),
}

pub open spec fn attrs_view(attrs: Seq<(String, String)>) -> Seq<(Seq<char>, Seq<char>)> {
    attrs.map_values(|a: (String, String)| (a.0@, a.1@))
}

impl View for XmlTag {
    type V = XmlTagView;

    open spec fn view(&self) -> XmlTagView {
        XmlTagView { name: self.name@, attrs: attrs_view(self.attrs@) }
    }
}

impl View for XmlEvent {
    type V = XmlEventView;

    open spec fn view(&self) -> XmlEventView {
        match self {
            XmlEvent::Decl(v, e) => XmlEventView::Decl(v@, e@),
            XmlEvent::Start(t) => XmlEventView::Start(t@),
            XmlEvent::Empty(t) => XmlEventView::Empty(t@),
            XmlEvent::End(n) => XmlEventView::End(n@),
            XmlEvent::Text(s) => XmlEventView::Text(s@),
        }
    }
}

pub open spec fn events_view(events: Seq<XmlEvent>) -> Seq<XmlEventView> {
    events.map_values(|e: XmlEvent| e@)
}

/// The events that have been written to a `quick_xml` writer, in order.
pub uninterp spec fn written_events(w: Writer<Vec<u8>>) -> Seq<XmlEventView>;

/// The bytes that `quick_xml`, indenting by two spaces, writes for a sequence of events:
/// attribute values and text escaped, each tag on a line of its own, text kept inline.
pub uninterp spec fn xml_document(events: Seq<XmlEventView>) -> Seq<u8>;

/// `quick_xml::Writer::new_with_indent` over an empty byte vector, indenting by two spaces:
/// a writer to which nothing has been written.
#[verifier::external_body]
fn new_xml_writer() -> (w: Writer<Vec<u8>>)
    ensures
        written_events(w) == Seq::<XmlEventView>::empty(),
{
    Writer::new_with_indent(Vec::new(), b' ', 2)
}

/// `quick_xml::Writer::write_event` over a byte vector. The writer's errors come only from
/// the underlying `io::Write`, and writing to a `Vec<u8>` always succeeds, so the call
/// succeeds and the event follows those written before.
#[verifier::external_body]
fn write_xml_event(w: &mut Writer<Vec<u8>>, e: &XmlEvent) -> (r: Result<(), quick_xml::Error>)
    ensures
        r is Ok,
        written_events(*final(w)) == written_events(*old(w)).push(e@),
{
    let ev = match e {
        XmlEvent::Decl(v, enc) => Event::Decl(BytesDecl::new(v, Some(enc), None)),
        XmlEvent::Start(t) => Event::Start(BytesStart::new(&t.name).with_attributes(t.attrs.iter().map(|a| (a.0.as_str(), a.1.as_str())))),
        XmlEvent::Empty(t) => Event::Empty(BytesStart::new(&t.name).with_attributes(t.attrs.iter().map(|a| (a.0.as_str(), a.1.as_str())))),
        XmlEvent::End(n) => Event::End(BytesEnd::new(n)),
        XmlEvent::Text(s) => Event::Text(BytesText::new(s)),
    };
    w.write_event(ev)
}

/// `quick_xml::Writer::into_inner`: the bytes written for the events.
#[verifier::external_body]
fn finish_xml(w: Writer<Vec<u8>>) -> (b: Vec<u8>)
    ensures
        b@ == xml_document(written_events(w)),
{
    w.into_inner()
}

/// Rendering an XML document failed.
#[derive(Debug)]
pub struct XmlWriteError;

/// The bytes of the XML document made of `events`; writing to memory always succeeds.
pub fn render_xml(events: &Vec<XmlEvent>) -> (r: Result<Vec<u8>, XmlWriteError>)
    ensures
        r matches Ok(b) && b@ == xml_document(events_view(events@)),
{
    let mut w = new_xml_writer();
    let mut i: usize = 0;
    while i < events.len()
        invariant
            i <= events@.len(),
            written_events(w) == events_view(events@.subrange(0, i as int)),
        decreases events.len() - i,
    {
        match write_xml_event(&mut w, &events[i]) {
            Ok(()) => {},
            Err(_) => return Err(XmlWriteError),
        }
        assert(events_view(events@.subrange(0, i + 1)) =~= events_view(events@.subrange(0, i as int)).push(
            events@[i as int]@,
        ));
        i += 1;
    }
    assert(events@.subrange(0, events@.len() as int) =~= events@);
    Ok(finish_xml(w))
}

// ---------------------------------------------------------------------------------------------
// Building events
// ---------------------------------------------------------------------------------------------

pub open spec fn tag_view(name: Seq<char>, attrs: Seq<(Seq<char>, Seq<char>)>) -> XmlTagView {
    XmlTagView { name, attrs }
}

pub fn string_of(s: &str) -> (r: String)
    ensures
        r@ == s@,
{
    let mut r = String::new();
    r.append(s);
    r
}

/// An attribute with a literal name.
pub fn attr(name: &str, value: String) -> (r: (String, String))
    ensures
        r.0@ == name@,
        r.1@ == value@,
{
    (string_of(name), value)
}

/// An attribute with a literal name and value.
pub fn attr_lit(name: &str, value: &str) -> (r: (String, String))
    ensures
        r.0@ == name@,
        r.1@ == value@,
{
    (string_of(name), string_of(value))
}

pub fn start(name: &str, attrs: Vec<(String, String)>) -> (r: XmlEvent)
    ensures
        r@ == XmlEventView::Start(tag_view(name@, attrs_view(attrs@))),
{
    XmlEvent::Start(XmlTag { name: string_of(name), attrs })
}

pub fn empty(name: &str, attrs: Vec<(String, String)>) -> (r: XmlEvent)
    ensures
        r@ == XmlEventView::Empty(tag_view(name@, attrs_view(attrs@))),
{
    XmlEvent::Empty(XmlTag { name: string_of(name), attrs })
}

pub fn end(name: &str) -> (r: XmlEvent)
    ensures
        r@ == XmlEventView::End(name@),
{
    XmlEvent::End(string_of(name))
}

/// The declaration `<?xml version="1.0" encoding="UTF-8"?>`.
pub open spec fn decl_view() -> XmlEventView {
    XmlEventView::Decl("1.0"@, "UTF-8"@)
}

pub fn decl() -> (r: XmlEvent)
    ensures
        r@ == decl_view(),
{
    XmlEvent::Decl(string_of("1.0"), string_of("UTF-8"))
}

/// Appends `more` to `events`.
pub fn push_all(events: &mut Vec<XmlEvent>, more: Vec<XmlEvent>)
    ensures
        events_view(final(events)@) == events_view(old(events)@) + events_view(more@),
{
    let mut more = more;
    let ghost a = events_view(events@);
    let ghost b = events_view(more@);
    events.append(&mut more);
    assert(events_view(events@) =~= a + b);
}

/// Appends one event to `events`.
pub fn push_event(events: &mut Vec<XmlEvent>, e: XmlEvent)
    ensures
        events_view(final(events)@) == events_view(old(events)@).push(e@),
{
    let ghost a = events_view(events@);
    events.push(e);
    assert(events_view(events@) =~= a.push(e@));
}

} // verus!
