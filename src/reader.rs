//! Reading XML text into tokens, through quick-xml's pull reader.
use quick_xml::events::Event;
use quick_xml::Error as XmlError;
use quick_xml::Reader;
use vstd::prelude::*;
use crate::decode::{decode_tokens, decode_value_tokens, multistatus_of, content_value, DecodeError};
use crate::webdav_types::{MultiStatus, PropValue};
use crate::xml::{is_document, tokens_view, NodeView, TokenView, XmlToken};

verus! {

/// quick_xml's pull reader, carried through as an opaque value.
#[verifier::external_type_specification]
#[verifier::external_body]
#[verifier::reject_recursive_types(R)]
pub struct ExReader<R>(Reader<R>);

/// quick_xml's error, kept as the cause of a syntax error.
#[verifier::external_type_specification]
#[verifier::external_body]
pub struct ExXmlError(XmlError);

/// One event of the reader, in the terms that the tokenizer needs.
pub enum ReadEvent {
    Open(String),
    Close(String),
    Leaf(String),
    Text(String),
    End,
    Skip,
}

/// The mathematical value of a [`ReadEvent`] other than the end.
pub enum EventView {
    Open(Seq<char>),
    Close(Seq<char>),
    Leaf(Seq<char>),
    Text(Seq<char>),
    Skip,
}

/// The events that quick-xml's reader, opened on `xml` with text trimming, yields before its
/// end or its first error (start tags, end tags and empty-element tags by local name; text
/// unescaped; CDATA as text; anything else as `Skip`), and whether it stops at an error.
pub uninterp spec fn xml_events_of(xml: Seq<char>) -> (Seq<EventView>, bool);

/// The events that an open reader has still to yield, in the terms of [`xml_events_of`].
pub uninterp spec fn pending_events(reader: Reader<&[u8]>) -> (Seq<EventView>, bool);

pub open spec fn same_event(e: ReadEvent, v: EventView) -> bool {
    match (e, v) {
        (ReadEvent::Open(n), EventView::Open(m)) => n@ == m,
        (ReadEvent::Close(n), EventView::Close(m)) => n@ == m,
        (ReadEvent::Leaf(n), EventView::Leaf(m)) => n@ == m,
        (ReadEvent::Text(t), EventView::Text(u)) => t@ == u,
        (ReadEvent::Skip, EventView::Skip) => true,
        _ => false,
    }
}

/// Relies on quick_xml's `Reader::from_str`, configured to trim the whitespace around text.
#[verifier::external_body]
fn open_reader(xml: &str) -> (r: Reader<&[u8]>)
    ensures
        pending_events(r) == xml_events_of(xml@),
{
    let mut reader = Reader::from_str(xml);
    reader.config_mut().trim_text(true);
    reader
}

/// Relies on quick_xml's `Reader::read_event`, with local names of tags and unescaped text.
#[verifier::external_body]
fn next_event(reader: &mut Reader<&[u8]>) -> (r: Result<ReadEvent, XmlError>)
    ensures
        pending_events(*old(reader)).0.len() > 0 ==> (r matches Ok(e) && same_event(
            e,
            pending_events(*old(reader)).0[0],
        ) && pending_events(*final(reader)) == (
            pending_events(*old(reader)).0.drop_first(),
            pending_events(*old(reader)).1,
        )),
        pending_events(*old(reader)).0.len() == 0 && pending_events(*old(reader)).1 ==> r is Err,
        pending_events(*old(reader)).0.len() == 0 && !pending_events(*old(reader)).1 ==> (r matches Ok(
            ReadEvent::End,
        )),
{
    Ok(match reader.read_event()? {
        Event::Start(e) => ReadEvent::Open(String::from_utf8_lossy(e.local_name().as_ref()).into_owned()),
        Event::End(e) => ReadEvent::Close(String::from_utf8_lossy(e.local_name().as_ref()).into_owned()),
        Event::Empty(e) => ReadEvent::Leaf(String::from_utf8_lossy(e.local_name().as_ref()).into_owned()),
        Event::Text(e) => ReadEvent::Text(e.unescape()?.into_owned()),
        Event::CData(e) => ReadEvent::Text(String::from_utf8_lossy(&e.into_inner()).into_owned()),
        Event::Eof => ReadEvent::End,
        _ => ReadEvent::Skip,
    })
}

/// The tokens of some events: an empty-element tag becomes an opening and a closing tag, and
/// skipped events give none.
pub open spec fn event_tokens(evs: Seq<EventView>) -> Seq<TokenView>
    decreases evs.len(),
{
    if evs.len() == 0 {
        Seq::empty()
    } else {
        event_tokens(evs.drop_last()) + match evs.last() {
            EventView::Open(n) => seq![TokenView::Open(n)],
            EventView::Close(n) => seq![TokenView::Close(n)],
            EventView::Leaf(n) => seq![TokenView::Open(n), TokenView::Close(n)],
            EventView::Text(t) => seq![TokenView::Text(t)],
            EventView::Skip => Seq::empty(),
        }
    }
}

/// The tokens of an XML text; none where the reader meets an error.
pub open spec fn xml_tokens_of(xml: Seq<char>) -> Option<Seq<TokenView>> {
    let (evs, fails) = xml_events_of(xml);
    if fails {
        None
    } else {
        Some(event_tokens(evs))
    }
}

/// Splits XML text into tokens. Declarations, comments and processing instructions are left
/// out.
pub fn tokenize(xml: &str) -> (r: Result<Vec<XmlToken>, DecodeError>)
    ensures
        match xml_tokens_of(xml@) {
            Some(ts) => r matches Ok(t) && tokens_view(t@) == ts,
            None => r matches Err(DecodeError::Syntax(_)),
        },
{
    let mut reader = open_reader(xml);
    let mut tokens: Vec<XmlToken> = Vec::new();
    let ghost all = xml_events_of(xml@).0;
    let ghost fails = xml_events_of(xml@).1;
    let ghost mut done: int = 0;
    assert(all.subrange(0, 0) =~= Seq::<EventView>::empty());
    assert(tokens_view(tokens@) =~= Seq::<TokenView>::empty());
    loop
        invariant
            all == xml_events_of(xml@).0,
            fails == xml_events_of(xml@).1,
            0 <= done <= all.len(),
            pending_events(reader) == (all.subrange(done, all.len() as int), fails),
            tokens_view(tokens@) == event_tokens(all.subrange(0, done)),
        decreases all.len() - done,
    {
        let ghost rest = all.subrange(done, all.len() as int);
        let event = match next_event(&mut reader) {
            Err(e) => {
                return Err(DecodeError::Syntax(e));
            },
            Ok(ReadEvent::End) => {
                assert(all.subrange(0, done) =~= all);
                return Ok(tokens);
            },
            Ok(event) => event,
        };
        let ghost ev = rest[0];
        assert(ev == all[done]);
        assert(all.subrange(0, done + 1).drop_last() =~= all.subrange(0, done));
        assert(rest.drop_first() =~= all.subrange(done + 1, all.len() as int));
        let ghost before = tokens_view(tokens@);
        match event {
            ReadEvent::Open(n) => tokens.push(XmlToken::Open(n)),
            ReadEvent::Close(n) => tokens.push(XmlToken::Close(n)),
            ReadEvent::Leaf(n) => {
                tokens.push(XmlToken::Open(n.clone()));
                tokens.push(XmlToken::Close(n));
            },
            ReadEvent::Text(t) => tokens.push(XmlToken::Text(t)),
            ReadEvent::End | ReadEvent::Skip => {},
        }
        proof {
            done = done + 1;
            assert(tokens_view(tokens@) =~= event_tokens(all.subrange(0, done)));
        }
    }
}

/// Decodes the body of a PROPFIND response.
pub fn parse_multistatus(xml: &str) -> (r: Result<MultiStatus, DecodeError>)
    ensures
        match xml_tokens_of(xml@) {
            None => r is Err,
            Some(ts) => {
                &&& (forall|n: NodeView| !is_document(ts, n)) ==> (r matches Err(
                    DecodeError::NotATree,
                ))
                &&& forall|n: NodeView|
                    #![trigger is_document(ts, n)]
                    is_document(ts, n) ==> match multistatus_of(n) {
                        Some(v) => r matches Ok(m) && m@ == v,
                        None => r matches Err(DecodeError::Shape),
                    }
            },
        },
{
    match tokenize(xml) {
        Ok(tokens) => decode_tokens(&tokens),
        Err(e) => Err(e),
    }
}

/// Decodes one XML element as a property value, from the shape of its content.
pub fn parse_prop_value(xml: &str) -> (r: Result<PropValue, DecodeError>)
    ensures
        match xml_tokens_of(xml@) {
            None => r is Err,
            Some(ts) => {
                &&& (forall|n: NodeView| !is_document(ts, n)) ==> (r matches Err(
                    DecodeError::NotATree,
                ))
                &&& forall|n: NodeView|
                    #![trigger is_document(ts, n)]
                    is_document(ts, n) ==> (r matches Ok(v) && v@ == content_value(
                        n->Element_1,
                    ))
            },
        },
{
    match tokenize(xml) {
        Ok(tokens) => decode_value_tokens(&tokens),
        Err(e) => Err(e),
    }
}

} // verus!
