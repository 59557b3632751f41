//! XML events read with `quick_xml`, as plain values.
use vstd::prelude::*;
use quick_xml::events::Event;
use quick_xml::Error as XmlError;
use quick_xml::Reader;

verus! {

/// The opaque reader of `quick_xml`.
#[verifier::external_type_specification]
#[verifier::external_body]
#[verifier::reject_recursive_types(R)]
pub struct ExReader<R>(Reader<R>);

/// The opaque event of `quick_xml`.
#[verifier::external_type_specification]
#[verifier::external_body]
pub struct ExEvent<'a>(Event<'a>);

/// The opaque error of `quick_xml`.
#[verifier::external_type_specification]
#[verifier::external_body]
pub struct ExXmlError(XmlError);

/// A start or empty tag: its qualified name and its attributes in document
/// order, each as `(key, raw value)`, or `None` for a malformed attribute.
pub struct XmlTag {
    pub name: String,
    pub attributes: Vec<Option<(String, String)>>,
}

/// One event of an XML document.
pub enum XmlEvent {
    Start(XmlTag),
    Empty(XmlTag),
    /// Character data, decoded but with its references not expanded; empty
    /// where it could not be decoded.
    Text(String),
    End(String),
    Eof,
    /// A declaration, comment, CDATA section, processing instruction,
    /// doctype or entity reference.
    Other,
}

/// The result of the call number `k` (counting from 0) of `Reader::read_event`
/// on a reader made by `Reader::from_str(xml)` whose text trimming is `trim`
/// (set before the first call): the event, with its tag and names converted as
/// `event_kind` and `tag_of` convert them, or the message of the error.
pub uninterp spec fn xml_event_at(xml: Seq<char>, trim: bool, k: nat) -> Result<XmlEvent, Seq<char>>;

/// The length, in bytes, of the input that such a reader has not consumed
/// after `k` calls of `Reader::read_event` (`Reader::get_ref`).
pub uninterp spec fn unread_at(xml: Seq<char>, trim: bool, k: nat) -> nat;

/// A `quick_xml` reader over `text`, with its trimming setting, the number
/// of events read from it so far and what the last read returned.
struct XmlCursor<'a> {
    reader: Reader<&'a [u8]>,
    last: Result<Event<'a>, XmlError>,
    text: Ghost<Seq<char>>,
    trim: Ghost<bool>,
    count: Ghost<nat>,
}

/// What a read gave, with the contents of a tag left to `tag_of`.
enum RawEvent {
    Start,
    Empty,
    Text(String),
    End(String),
    Eof,
    Other,
    /// The read failed, with this message.
    Failed(String),
}

/// The event value that a result of `xml_event_at` holds.
pub open spec fn ok_event(e: Result<XmlEvent, Seq<char>>) -> XmlEvent {
    match e {
        Ok(ev) => ev,
        Err(_) => XmlEvent::Eof,
    }
}

/// A raw event agrees with a result of `xml_event_at`: the same error or
/// event, start tags of the same kind (`tag_of` converts their contents).
spec fn raw_agrees(r: RawEvent, e: Result<XmlEvent, Seq<char>>) -> bool {
    match r {
        RawEvent::Failed(m) => e == Err::<XmlEvent, Seq<char>>(m@),
        RawEvent::Start => e matches Ok(XmlEvent::Start(_)),
        RawEvent::Empty => e matches Ok(XmlEvent::Empty(_)),
        RawEvent::Text(t) => e == Ok::<XmlEvent, Seq<char>>(XmlEvent::Text(t)),
        RawEvent::End(n) => e == Ok::<XmlEvent, Seq<char>>(XmlEvent::End(n)),
        RawEvent::Eof => e == Ok::<XmlEvent, Seq<char>>(XmlEvent::Eof),
        RawEvent::Other => e == Ok::<XmlEvent, Seq<char>>(XmlEvent::Other),
    }
}

/// `Reader::from_str`: a reader over the text, which trims nothing and has
/// read nothing yet.
#[verifier::external_body]
fn reader_from_str<'a>(xml: &'a str) -> (c: XmlCursor<'a>)
    ensures
        c.text@ == xml@,
        c.trim@ == false,
        c.count@ == 0,
{
    XmlCursor {
        reader: Reader::from_str(xml),
        last: Ok(Event::Eof),
        text: Ghost(xml@),
        trim: Ghost(false),
        count: Ghost(0),
    }
}

/// `Config::trim_text(true)` on the reader's configuration, before the first
/// event: text events lose leading and trailing XML whitespace, and blank
/// ones are skipped.
#[verifier::external_body]
fn trim_text(c: &mut XmlCursor)
    requires
        old(c).count@ == 0,
    ensures
        final(c).text == old(c).text,
        final(c).trim@ == true,
        final(c).count == old(c).count,
{
    c.reader.config_mut().trim_text(true);
    c.trim = Ghost(true);
}

/// `Reader::get_ref`: the length of the input that is still unread.
#[verifier::external_body]
fn unread_len(c: &XmlCursor) -> (n: usize)
    ensures
        n == unread_at(c.text@, c.trim@, c.count@),
{
    c.reader.get_ref().len()
}

/// `Reader::read_event`: reads the next event into the cursor.
#[verifier::external_body]
fn read_xml_event<'a>(c: &mut XmlCursor<'a>)
    ensures
        final(c).text == old(c).text,
        final(c).trim == old(c).trim,
        final(c).count@ == old(c).count@ + 1,
{
    c.last = c.reader.read_event();
    c.count = Ghost((c.count@ + 1) as nat);
}

/// What the last read gave (`BytesText::decode`, `BytesEnd::name`, the
/// error's message): it agrees with `xml_event_at` for that read.
#[verifier::external_body]
fn event_kind(c: &XmlCursor) -> (r: RawEvent)
    requires
        c.count@ > 0,
    ensures
        raw_agrees(r, xml_event_at(c.text@, c.trim@, (c.count@ - 1) as nat)),
{
    match &c.last {
        Ok(Event::Start(_)) => RawEvent::Start,
        Ok(Event::Empty(_)) => RawEvent::Empty,
        Ok(Event::Text(t)) => RawEvent::Text(t.decode().unwrap_or_default().into_owned()),
        Ok(Event::End(e)) => RawEvent::End(String::from_utf8_lossy(e.name().as_ref()).into_owned()),
        Ok(Event::Eof) => RawEvent::Eof,
        Ok(_) => RawEvent::Other,
        Err(e) => RawEvent::Failed(e.to_string()),
    }
}

/// The name and attributes of the start tag that the last read gave
/// (`BytesStart::name` and `BytesStart::attributes`), one entry per
/// attribute, `None` where the attribute iterator gave an error; an empty
/// tag when the last read gave no tag.
#[verifier::external_body]
fn tag_of(c: &XmlCursor) -> (r: XmlTag)
    requires
        c.count@ > 0,
    ensures
        xml_event_at(c.text@, c.trim@, (c.count@ - 1) as nat) matches Ok(XmlEvent::Start(t)) ==> r == t,
        xml_event_at(c.text@, c.trim@, (c.count@ - 1) as nat) matches Ok(XmlEvent::Empty(t)) ==> r == t,
{
    match &c.last {
        Ok(Event::Start(e)) | Ok(Event::Empty(e)) => XmlTag {
            name: String::from_utf8_lossy(e.name().as_ref()).into_owned(),
            attributes: e.attributes().map(
                |a| a.ok().map(|a| (String::from_utf8_lossy(a.key.as_ref()).into_owned(), String::from_utf8_lossy(&a.value).into_owned())),
            ).collect(),
        },
        _ => XmlTag { name: String::new(), attributes: Vec::new() },
    }
}

/// Call number `i` of a trimming reader over `xml` gives an event other than
/// the end, and that event consumes input.
pub open spec fn step_ok(xml: Seq<char>, i: nat) -> bool {
    &&& xml_event_at(xml, true, i) matches Ok(e) && !(e is Eof)
    &&& unread_at(xml, true, i + 1) < unread_at(xml, true, i)
}

/// A trimming reader over `xml` gives `n` events, each consuming input, and
/// then the end.
pub open spec fn clean_read(xml: Seq<char>, n: nat) -> bool {
    &&& xml_event_at(xml, true, n) == Ok::<XmlEvent, Seq<char>>(XmlEvent::Eof)
    &&& forall|i: nat| i < n ==> #[trigger] step_ok(xml, i)
}

/// The events of `xml`, read with text trimmed up to its end, when every
/// event before the end is read without error and consumes input.
pub open spec fn xml_events(xml: Seq<char>) -> Option<Seq<XmlEvent>> {
    if exists|n: nat| clean_read(xml, n) {
        let n = choose|n: nat| clean_read(xml, n);
        Some(Seq::new(n, |i: int| ok_event(xml_event_at(xml, true, i as nat))))
    } else {
        None
    }
}

/// The message of a reader that handed out an event without consuming input.
pub open spec fn stall_message() -> Seq<char> {
    "the XML reader stopped consuming its input"@
}

/// Call number `k` hands out an event other than the end without consuming
/// input, and `m` is `stall_message()`.
pub open spec fn stalls_at(xml: Seq<char>, k: nat, m: Seq<char>) -> bool {
    &&& m == stall_message()
    &&& xml_event_at(xml, true, k) matches Ok(e) && !(e is Eof)
    &&& unread_at(xml, true, k + 1) >= unread_at(xml, true, k)
}

/// Reading a trimming reader over `xml` fails at call number `k` with message
/// `m`: every earlier call was a clean step, and call `k` failed with `m`, or
/// handed out an event other than the end without consuming input (`m` is
/// then `stall_message()`).
pub open spec fn read_failure(xml: Seq<char>, k: nat, m: Seq<char>) -> bool {
    &&& forall|i: nat| i < k ==> #[trigger] step_ok(xml, i)
    &&& (xml_event_at(xml, true, k) == Err::<XmlEvent, Seq<char>>(m) || stalls_at(xml, k, m))
}

/// Reading a trimming reader over `xml` fails with message `m` at some call.
pub open spec fn fails_with(xml: Seq<char>, m: Seq<char>) -> bool {
    exists|k: nat| #[trigger] read_failure(xml, k, m)
}

/// A text is read cleanly to its end in at most one way.
proof fn lemma_clean_read_unique(xml: Seq<char>, n: nat, m: nat)
    requires
        clean_read(xml, n),
        clean_read(xml, m),
    ensures
        n == m,
{
    if n < m {
        assert(step_ok(xml, n));
    } else if m < n {
        assert(step_ok(xml, m));
    }
}

/// Reads the events of a document, with text trimmed, up to its end: the
/// events before the end, or the message of the first error. A reader that
/// hands out an event without consuming input is reported as an error.
pub fn read_events(xml: &str) -> (r: Result<Vec<XmlEvent>, String>)
    ensures
        r is Ok <==> xml_events(xml@) is Some,
        r matches Ok(events) ==> xml_events(xml@) == Some(events@),
        r matches Err(m) ==> fails_with(xml@, m@),
{
    let mut c = reader_from_str(xml);
    trim_text(&mut c);
    let mut events: Vec<XmlEvent> = Vec::new();
    let mut left = unread_len(&c);
    loop
        invariant
            c.text@ == xml@,
            c.trim@ == true,
            c.count@ == events@.len(),
            left == unread_at(xml@, true, c.count@),
            forall|i: nat| i < events@.len() ==> #[trigger] step_ok(xml@, i),
            forall|i: int|
                0 <= i < events@.len() ==> events@[i] == ok_event(xml_event_at(xml@, true, i as nat)),
        decreases left,
    {
        let ghost k = c.count@;
        read_xml_event(&mut c);
        let event = match event_kind(&c) {
            RawEvent::Failed(message) => {
                proof {
                    lemma_no_clean_read_past(xml@, k);
                    assert(read_failure(xml@, k, message@));
                    assert(fails_with(xml@, message@));
                }
                return Err(message);
            },
            RawEvent::Eof => {
                proof {
                    assert(clean_read(xml@, k));
                    let n = choose|n: nat| clean_read(xml@, n);
                    lemma_clean_read_unique(xml@, n, k);
                    assert(xml_events(xml@) == Some(events@));
                }
                return Ok(events);
            },
            RawEvent::Start => XmlEvent::Start(tag_of(&c)),
            RawEvent::Empty => XmlEvent::Empty(tag_of(&c)),
            RawEvent::Text(t) => XmlEvent::Text(t),
            RawEvent::End(n) => XmlEvent::End(n),
            RawEvent::Other => XmlEvent::Other,
        };
        assert(xml_event_at(xml@, true, k) == Ok::<XmlEvent, Seq<char>>(event));
        events.push(event);
        let now = unread_len(&c);
        if now >= left {
            proof {
                lemma_no_clean_read_past(xml@, k);
            }
            let m = String::from_str("the XML reader stopped consuming its input");
            proof {
                reveal_strlit("the XML reader stopped consuming its input");
                assert(read_failure(xml@, k, m@));
                assert(fails_with(xml@, m@));
            }
            return Err(m);
        }
        assert(step_ok(xml@, k));
        left = now;
    }
}

/// When call number `k` is not a clean step and not the end, and every
/// earlier call was a clean step, the text has no clean read.
proof fn lemma_no_clean_read_past(xml: Seq<char>, k: nat)
    requires
        forall|i: nat| i < k ==> #[trigger] step_ok(xml, i),
        !step_ok(xml, k),
        xml_event_at(xml, true, k) != Ok::<XmlEvent, Seq<char>>(XmlEvent::Eof),
    ensures
        xml_events(xml) is None,
{
    assert forall|n: nat| !clean_read(xml, n) by {
        if clean_read(xml, n) {
            if n < k {
                assert(step_ok(xml, n));
            } else if n > k {
                assert(step_ok(xml, k));
            }
        }
    }
}

} // verus!
