//! The event-stream boundary. The tokenizer is quick-xml; each of its calls
//! stands behind a trusted item that converts the borrowed event into the
//! plain, owned form (`XmlEvent`) that the verified engine works on.

use vstd::prelude::*;
use crate::error::OpfParseError;

verus! {

/// A start or empty-element tag: its qualified name and its attributes as
/// key/value pairs in document order.
#[derive(Debug, Clone)]
pub struct Tag {
    pub name: String,
    pub attrs: Vec<(String, String)>,
}

/// One event of the XML stream, in plain owned form. `Other` stands for the
/// event kinds that carry no structural meaning here (comments, processing
/// instructions, CDATA, declarations, doctypes).
#[derive(Debug, Clone)]
pub enum XmlEvent {
    Start(Tag),
    Empty(Tag),
    End(String),
    Text(String),
    Other,
    Eof,
}

/// quick-xml's pull tokenizer, declared opaque: the engine only carries it
/// between calls of the wrappers below.
#[verifier::external_type_specification]
#[verifier::external_body]
#[verifier::reject_recursive_types(R)]
pub struct ExReader<R>(quick_xml::reader::Reader<R>);

/// quick-xml's borrowed start-tag event, declared opaque.
#[verifier::external_type_specification]
#[verifier::external_body]
pub struct ExBytesStart<'a>(quick_xml::events::BytesStart<'a>);

/// quick-xml's borrowed end-tag event, declared opaque.
#[verifier::external_type_specification]
#[verifier::external_body]
pub struct ExBytesEnd<'a>(quick_xml::events::BytesEnd<'a>);

/// quick-xml's borrowed text event, declared opaque.
#[verifier::external_type_specification]
#[verifier::external_body]
pub struct ExBytesText<'a>(quick_xml::events::BytesText<'a>);

/// What tokenizing a document yields, as a name: the plain events this
/// boundary produces from the bytes, in order, up to but not including the
/// end-of-stream marker (`.0`), and how the stream ends — `None` for a clean
/// end, `Some(e)` when the tokenizer or a conversion first fails (`.1`). The
/// tokenizer reads nothing but the bytes, so this is a function of the bytes
/// alone.
pub uninterp spec fn events_of(bytes: Seq<u8>) -> (Seq<XmlEvent>, Option<OpfParseError>);

/// What a reader will still yield through this boundary, in the same shape
/// as `events_of`: the remaining plain events, and how the stream ends. A
/// reader value determines its future output.
pub uninterp spec fn reader_pending(rd: quick_xml::reader::Reader<&[u8]>) -> (
    Seq<XmlEvent>,
    Option<OpfParseError>,
);

/// Relies on quick-xml's Reader::from_reader: builds a pull tokenizer over
/// the document bytes (a byte slice is a buffered reader). A fresh reader
/// will yield exactly the events of its bytes; the end-of-stream marker is
/// not among them, since it is where the stream ends.
#[verifier::external_body]
fn reader_from_bytes(bytes: &[u8]) -> (rd: quick_xml::reader::Reader<&[u8]>)
    ensures
        reader_pending(rd) == events_of(bytes@),
        forall|i: int|
            0 <= i < reader_pending(rd).0.len() ==> !((#[trigger] reader_pending(rd).0[i]) is Eof),
{
    quick_xml::reader::Reader::from_reader(bytes)
}

/// Relies on quick-xml's BytesStart::name and BytesStart::attributes: the
/// tag's qualified name and its attributes, each decoded as UTF-8 text.
#[verifier::external_body]
fn tag_of(e: &quick_xml::events::BytesStart<'_>) -> (r: Result<Tag, OpfParseError>) {
    let name = String::from_utf8(e.name().as_ref().to_vec()).map_err(|_| OpfParseError::Utf8)?;
    let mut attrs: Vec<(String, String)> = Vec::new();
    for a in e.attributes() {
        let a = a.map_err(|_| OpfParseError::XmlAttr)?;
        let k = String::from_utf8(a.key.as_ref().to_vec()).map_err(|_| OpfParseError::Utf8)?;
        let v = String::from_utf8(a.value.to_vec()).map_err(|_| OpfParseError::Utf8)?;
        attrs.push((k, v));
    }
    Ok(Tag { name, attrs })
}

/// Relies on quick-xml's BytesEnd::name: the closing tag's qualified name,
/// decoded as UTF-8 text.
#[verifier::external_body]
fn end_name_of(e: &quick_xml::events::BytesEnd<'_>) -> (r: Result<String, OpfParseError>) {
    String::from_utf8(e.name().as_ref().to_vec()).map_err(|_| OpfParseError::Utf8)
}

/// Relies on quick-xml's BytesText::unescape: the text content with
/// character and entity references resolved.
#[verifier::external_body]
fn text_of(e: &quick_xml::events::BytesText<'_>) -> (r: Result<String, OpfParseError>) {
    match e.unescape() {
        Ok(t) => Ok(t.into_owned()),
        Err(_) => Err(OpfParseError::Xml),
    }
}

/// Relies on quick-xml's Reader::read_event_into: the next event of the
/// stream, here converted to its plain owned form. The call hands out the
/// first pending event and leaves the rest pending; on an exhausted stream
/// it reports the stream's end — the marker on a clean end, the error
/// otherwise.
#[verifier::external_body]
fn next_raw_event(rd: &mut quick_xml::reader::Reader<&[u8]>) -> (r: Result<XmlEvent, OpfParseError>)
    ensures
        ({
            let (pending, outcome) = reader_pending(*old(rd));
            &&& pending.len() > 0 ==> r == Ok::<XmlEvent, OpfParseError>(pending[0])
                && reader_pending(*final(rd)) == (pending.skip(1), outcome)
            &&& pending.len() == 0 && outcome is None ==> r == Ok::<XmlEvent, OpfParseError>(
                XmlEvent::Eof,
            )
            &&& pending.len() == 0 && outcome is Some ==> r == Err::<XmlEvent, OpfParseError>(
                outcome.unwrap(),
            )
        }),
{
    let mut buf: Vec<u8> = Vec::new();
    match rd.read_event_into(&mut buf) {
        Err(_) => Err(OpfParseError::Xml),
        Ok(quick_xml::events::Event::Start(e)) => Ok(XmlEvent::Start(tag_of(&e)?)),
        Ok(quick_xml::events::Event::Empty(e)) => Ok(XmlEvent::Empty(tag_of(&e)?)),
        Ok(quick_xml::events::Event::End(e)) => Ok(XmlEvent::End(end_name_of(&e)?)),
        Ok(quick_xml::events::Event::Text(e)) => Ok(XmlEvent::Text(text_of(&e)?)),
        Ok(quick_xml::events::Event::Eof) => Ok(XmlEvent::Eof),
        Ok(_) => Ok(XmlEvent::Other),
    }
}

/// Runs the tokenizer over the whole document and collects the events up to
/// end-of-stream: exactly the events of the bytes on a clean end, and
/// exactly the stream's error otherwise.
pub fn tokenize(bytes: &[u8]) -> (r: Result<Vec<XmlEvent>, OpfParseError>)
    ensures
        match r {
            Ok(evs) => events_of(bytes@).0 == evs@ && events_of(bytes@).1 is None && forall|j: int|
                0 <= j < evs@.len() ==> !((#[trigger] evs@[j]) is Eof),
            Err(e) => events_of(bytes@).1 == Some(e),
        },
{
    let mut rd = reader_from_bytes(bytes);
    let mut evs: Vec<XmlEvent> = Vec::new();
    let ghost all = events_of(bytes@).0;
    let ghost outcome = events_of(bytes@).1;
    proof {
        assert(all.skip(0) =~= all);
        assert(all.take(0) =~= Seq::<XmlEvent>::empty());
    }
    loop
        invariant
            evs@.len() <= all.len(),
            evs@ == all.take(evs@.len() as int),
            reader_pending(rd) == (all.skip(evs@.len() as int), outcome),
            (all, outcome) == events_of(bytes@),
            forall|i: int| 0 <= i < all.len() ==> !((#[trigger] all[i]) is Eof),
        decreases all.len() - evs@.len(),
    {
        let ghost k = evs@.len() as int;
        match next_raw_event(&mut rd) {
            Err(e) => {
                return Err(e);
            },
            Ok(ev) => {
                match ev {
                    XmlEvent::Eof => {
                        proof {
                            assert(all.take(all.len() as int) =~= all);
                        }
                        return Ok(evs);
                    },
                    other => {
                        evs.push(other);
                        proof {
                            assert(all.skip(k).skip(1) =~= all.skip(k + 1));
                            assert(all.take(k + 1) =~= all.take(k).push(all[k]));
                        }
                    },
                }
            },
        }
    }
}

} // verus!
