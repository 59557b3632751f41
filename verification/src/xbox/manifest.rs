//! Reading `AppxManifest.xml`: the game's identity and its display name.
use vstd::prelude::*;
use crate::error::{Error, ErrorKind};
use crate::text::{str_equal, trim, trim_white};
use crate::xml::{fails_with, read_events, xml_events, XmlEvent, XmlTag};

verus! {

/// What the scanner takes from a manifest.
pub struct ParsedManifest {
    pub identity_name: String,
    pub display_name: String,
}

/// The value of the last well-formed `Name` attribute among `attrs`, or
/// `current` when there is none.
pub open spec fn name_attribute(attrs: Seq<Option<(String, String)>>, current: Seq<char>) -> Seq<char>
    decreases attrs.len(),
{
    if attrs.len() == 0 {
        current
    } else {
        let next = match attrs[0] {
            Some((k, v)) => if k@ == "Name"@ {
                v@
            } else {
                current
            },
            None => current,
        };
        name_attribute(attrs.skip(1), next)
    }
}

/// An attribute whose key is exactly `Name`.
pub open spec fn is_name_attribute(a: Option<(String, String)>) -> bool {
    match a {
        Some((k, _)) => k@ == "Name"@,
        None => false,
    }
}

/// The value of a well-formed attribute.
pub open spec fn attribute_value(a: Option<(String, String)>) -> Seq<char> {
    match a {
        Some((_, v)) => v@,
        None => seq![],
    }
}

/// The `Name` rule of an `Identity` tag: the identity is the value of the
/// last attribute whose key is exactly `Name`; attributes with other keys and
/// malformed ones never change it; with no `Name` attribute the identity is
/// what it was before the tag.
pub proof fn lemma_name_attribute_rule(attrs: Seq<Option<(String, String)>>, current: Seq<char>)
    ensures
        (forall|i: int| 0 <= i < attrs.len() ==> !#[trigger] is_name_attribute(attrs[i]))
            ==> name_attribute(attrs, current) == current,
        forall|i: int|
            0 <= i < attrs.len() && #[trigger] is_name_attribute(attrs[i]) && (forall|j: int|
                i < j < attrs.len() ==> !#[trigger] is_name_attribute(attrs[j])) ==> name_attribute(
                attrs,
                current,
            ) == attribute_value(attrs[i]),
    decreases attrs.len(),
{
    if attrs.len() > 0 {
        let rest = attrs.skip(1);
        let next = match attrs[0] {
            Some((k, v)) => if k@ == "Name"@ {
                v@
            } else {
                current
            },
            None => current,
        };
        lemma_name_attribute_rule(rest, next);
        assert forall|i: int| 0 <= i < rest.len() implies rest[i] == attrs[i + 1] by {}
        if forall|i: int| 0 <= i < attrs.len() ==> !#[trigger] is_name_attribute(attrs[i]) {
            assert(!is_name_attribute(attrs[0]));
            assert forall|i: int| 0 <= i < rest.len() implies !#[trigger] is_name_attribute(rest[i]) by {
                assert(!is_name_attribute(attrs[i + 1]));
            }
        }
        assert forall|i: int|
            0 <= i < attrs.len() && #[trigger] is_name_attribute(attrs[i]) && (forall|j: int|
                i < j < attrs.len() ==> !#[trigger] is_name_attribute(attrs[j])) implies name_attribute(
            attrs,
            current,
        ) == attribute_value(attrs[i]) by {
            if i == 0 {
                assert forall|j: int| 0 <= j < rest.len() implies !#[trigger] is_name_attribute(
                    rest[j],
                ) by {
                    assert(!is_name_attribute(attrs[j + 1]));
                }
            } else {
                assert(is_name_attribute(rest[i - 1]));
                assert forall|j: int| i - 1 < j < rest.len() implies !#[trigger] is_name_attribute(
                    rest[j],
                ) by {
                    assert(!is_name_attribute(attrs[j + 1]));
                }
            }
        }
    }
}

/// The reading state: identity name, display name, and whether the reader is
/// inside a `DisplayName` element.
pub type ScanState = (Seq<char>, Seq<char>, bool);

/// One event's effect on the reading state. An `Identity` tag sets the
/// identity from its `Name` attribute while none is known yet; a
/// `DisplayName` start tag opens the display name while none is known yet;
/// inside it, the first text that is not blank once trimmed becomes the display
/// name; a `DisplayName` end tag closes it.
pub open spec fn scan_step(s: ScanState, e: XmlEvent) -> ScanState {
    let (id, dn, inside) = s;
    match e {
        XmlEvent::Start(t) => if t.name@ == "Identity"@ && id.len() == 0 {
            (name_attribute(t.attributes@, id), dn, inside)
        } else if t.name@ == "DisplayName"@ && dn.len() == 0 {
            (id, dn, true)
        } else {
            s
        },
        XmlEvent::Empty(t) => if t.name@ == "Identity"@ && id.len() == 0 {
            (name_attribute(t.attributes@, id), dn, inside)
        } else {
            s
        },
        XmlEvent::Text(x) => if inside && dn.len() == 0 && trim_white(x@).len() > 0 {
            (id, trim_white(x@), inside)
        } else {
            s
        },
        XmlEvent::End(n) => if n@ == "DisplayName"@ {
            (id, dn, false)
        } else {
            s
        },
        _ => s,
    }
}

/// The reading state after the events, from an empty state.
pub open spec fn scan_events(events: Seq<XmlEvent>) -> ScanState
    decreases events.len(),
{
    if events.len() == 0 {
        (seq![], seq![], false)
    } else {
        scan_step(scan_events(events.drop_last()), events.last())
    }
}

/// The identity name that an event offers: for an `Identity` start or empty
/// tag, the value of its last well-formed `Name` attribute (empty when it has
/// none); nothing for other events.
pub open spec fn offered_identity(e: XmlEvent) -> Seq<char> {
    match e {
        XmlEvent::Start(t) => if t.name@ == "Identity"@ {
            name_attribute(t.attributes@, seq![])
        } else {
            seq![]
        },
        XmlEvent::Empty(t) => if t.name@ == "Identity"@ {
            name_attribute(t.attributes@, seq![])
        } else {
            seq![]
        },
        _ => seq![],
    }
}

/// A `DisplayName` start tag.
pub open spec fn opens_display_name(e: XmlEvent) -> bool {
    e matches XmlEvent::Start(t) && t.name@ == "DisplayName"@
}

/// A `DisplayName` end tag.
pub open spec fn closes_display_name(e: XmlEvent) -> bool {
    e matches XmlEvent::End(n) && n@ == "DisplayName"@
}

/// Event `i` lies inside a `DisplayName` element: an earlier event opens one
/// and no event between them closes one.
#[verifier::opaque]
pub open spec fn inside_display_name(events: Seq<XmlEvent>, i: int) -> bool {
    exists|j: int|
        0 <= j < i && #[trigger] opens_display_name(events[j]) && forall|k: int|
            j < k < i ==> !closes_display_name(#[trigger] events[k])
}

/// The display name that event `i` offers: its text, trimmed, when it is text
/// inside a `DisplayName` element; nothing otherwise.
pub open spec fn offered_display_name(events: Seq<XmlEvent>, i: int) -> Seq<char> {
    match events[i] {
        XmlEvent::Text(x) => if inside_display_name(events, i) {
            trim_white(x@)
        } else {
            seq![]
        },
        _ => seq![],
    }
}

proof fn lemma_inside_push(events: Seq<XmlEvent>, e: XmlEvent, i: int)
    requires
        0 <= i <= events.len(),
    ensures
        inside_display_name(events.push(e), i) == inside_display_name(events, i),
{
    reveal(inside_display_name);
    let ext = events.push(e);
    if inside_display_name(ext, i) {
        let j = choose|j: int|
            0 <= j < i && #[trigger] opens_display_name(ext[j]) && forall|k: int|
                j < k < i ==> !closes_display_name(#[trigger] ext[k]);
        assert(opens_display_name(events[j]));
        assert forall|k: int| j < k < i implies !closes_display_name(#[trigger] events[k]) by {
            assert(ext[k] == events[k]);
        }
    }
    if inside_display_name(events, i) {
        let j = choose|j: int|
            0 <= j < i && #[trigger] opens_display_name(events[j]) && forall|k: int|
                j < k < i ==> !closes_display_name(#[trigger] events[k]);
        assert(opens_display_name(ext[j]));
        assert forall|k: int| j < k < i implies !closes_display_name(#[trigger] ext[k]) by {
            assert(ext[k] == events[k]);
        }
    }
}

/// An event that neither opens nor closes a `DisplayName` element leaves the
/// reader as inside or outside one as it was.
proof fn lemma_inside_step(events: Seq<XmlEvent>, e: XmlEvent)
    requires
        !opens_display_name(e),
        !closes_display_name(e),
    ensures
        inside_display_name(events.push(e), events.len() + 1int) == inside_display_name(
            events,
            events.len() as int,
        ),
{
    reveal(inside_display_name);
    let ext = events.push(e);
    let n = events.len() as int;
    if inside_display_name(ext, n + 1) {
        let j = choose|j: int|
            0 <= j < n + 1 && #[trigger] opens_display_name(ext[j]) && forall|k: int|
                j < k < n + 1 ==> !closes_display_name(#[trigger] ext[k]);
        assert(j != n);
        assert(opens_display_name(events[j]));
        assert forall|k: int| j < k < n implies !closes_display_name(#[trigger] events[k]) by {
            assert(ext[k] == events[k]);
        }
    }
    if inside_display_name(events, n) {
        let j = choose|j: int|
            0 <= j < n && #[trigger] opens_display_name(events[j]) && forall|k: int|
                j < k < n ==> !closes_display_name(#[trigger] events[k]);
        assert(opens_display_name(ext[j]));
        assert forall|k: int| j < k < n + 1 implies !closes_display_name(#[trigger] ext[k]) by {
            if k < n {
                assert(ext[k] == events[k]);
            }
        }
    }
}

proof fn lemma_scan_inside(events: Seq<XmlEvent>)
    ensures
        scan_events(events).1.len() == 0 ==> (scan_events(events).2 <==> inside_display_name(
            events,
            events.len() as int,
        )),
    decreases events.len(),
{
    reveal(inside_display_name);
    reveal_strlit("Identity");
    reveal_strlit("DisplayName");
    assert("Identity"@.len() != "DisplayName"@.len());
    if events.len() == 0 {
        assert(!inside_display_name(events, 0));
    } else {
        let prev = events.drop_last();
        let e = events.last();
        let n = prev.len() as int;
        lemma_scan_inside(prev);
        assert(events =~= prev.push(e));
        let (id0, dn0, in0) = scan_events(prev);
        let (id, dn, inside) = scan_events(events);
        assert(events[n] == e);
        if dn.len() == 0 {
            assert(dn0.len() == 0);
            if opens_display_name(e) {
                assert(inside);
                assert(inside_display_name(events, n + 1)) by {
                    assert(opens_display_name(events[n]));
                }
            } else if closes_display_name(e) {
                assert(!inside);
                assert(!inside_display_name(events, n + 1)) by {
                    if inside_display_name(events, n + 1) {
                        let j = choose|j: int|
                            0 <= j < n + 1 && #[trigger] opens_display_name(events[j]) && forall|
                                k: int,
                            | j < k < n + 1 ==> !closes_display_name(#[trigger] events[k]);
                        if j < n {
                            assert(closes_display_name(events[n]));
                        }
                    }
                }
            } else {
                lemma_inside_step(prev, e);
                assert(inside == in0);
            }
        }
    }
}

proof fn lemma_scan_identity(events: Seq<XmlEvent>)
    ensures
        scan_events(events).0.len() == 0 <==> forall|i: int|
            0 <= i < events.len() ==> #[trigger] offered_identity(events[i]).len() == 0,
        forall|i: int|
            0 <= i < events.len() && offered_identity(events[i]).len() > 0 && (forall|j: int|
                0 <= j < i ==> #[trigger] offered_identity(events[j]).len() == 0) ==> scan_events(
                events,
            ).0 == #[trigger] offered_identity(events[i]),
    decreases events.len(),
{
    reveal_strlit("Identity");
    reveal_strlit("DisplayName");
    assert("Identity"@.len() != "DisplayName"@.len());
    if events.len() > 0 {
        let prev = events.drop_last();
        let e = events.last();
        let n = prev.len() as int;
        lemma_scan_identity(prev);
        assert(events =~= prev.push(e));
        assert(events[n] == e);
        assert forall|i: int| 0 <= i < n implies events[i] == prev[i] by {}
        let id0 = scan_events(prev).0;
        let id = scan_events(events).0;
        if id0.len() == 0 {
            assert(id0 =~= seq![]);
            assert(id == offered_identity(e));
        } else {
            assert(id == id0);
        }
    }
}

proof fn lemma_display_step(prev: Seq<XmlEvent>, e: XmlEvent)
    ensures
        scan_events(prev).1.len() > 0 ==> scan_events(prev.push(e)).1 == scan_events(prev).1,
        scan_events(prev).1.len() == 0 ==> scan_events(prev.push(e)).1 == offered_display_name(
            prev.push(e),
            prev.len() as int,
        ),
{
    let events = prev.push(e);
    let n = prev.len() as int;
    lemma_scan_inside(prev);
    lemma_inside_push(prev, e, n);
    assert(events.drop_last() =~= prev);
    assert(events.last() == e);
    assert(events[n] == e);
    let dn0 = scan_events(prev).1;
    if dn0.len() == 0 {
        assert(dn0 =~= seq![]);
    }
}

proof fn lemma_scan_display(events: Seq<XmlEvent>)
    ensures
        scan_events(events).1.len() == 0 <==> forall|i: int|
            0 <= i < events.len() ==> #[trigger] offered_display_name(events, i).len() == 0,
        forall|i: int|
            0 <= i < events.len() && offered_display_name(events, i).len() > 0 && (forall|j: int|
                0 <= j < i ==> #[trigger] offered_display_name(events, j).len() == 0) ==> scan_events(
                events,
            ).1 == #[trigger] offered_display_name(events, i),
    decreases events.len(),
{
    if events.len() > 0 {
        let prev = events.drop_last();
        let e = events.last();
        let n = prev.len() as int;
        lemma_scan_display(prev);
        assert(events =~= prev.push(e));
        lemma_display_step(prev, e);
        assert forall|i: int| 0 <= i < n implies #[trigger] offered_display_name(events, i)
            == offered_display_name(prev, i) by {
            lemma_inside_push(prev, e, i);
            assert(events[i] == prev[i]);
        }
        let dn0 = scan_events(prev).1;
        let dn = scan_events(events).1;
        if dn0.len() == 0 {
            assert(dn == offered_display_name(events, n));
            assert forall|i: int|
                0 <= i < events.len() && offered_display_name(events, i).len() > 0 && (forall|j: int|
                    0 <= j < i ==> #[trigger] offered_display_name(events, j).len() == 0) implies dn
                == #[trigger] offered_display_name(events, i) by {
                if i < n {
                    assert(offered_display_name(prev, i).len() > 0);
                }
            }
        } else {
            assert(dn == dn0);
            let k = choose|k: int| 0 <= k < prev.len() && #[trigger] offered_display_name(prev, k).len() != 0;
            assert(offered_display_name(events, k) == offered_display_name(prev, k));
            assert forall|i: int|
                0 <= i < events.len() && offered_display_name(events, i).len() > 0 && (forall|j: int|
                    0 <= j < i ==> #[trigger] offered_display_name(events, j).len() == 0) implies dn
                == #[trigger] offered_display_name(events, i) by {
                if i == n {
                    assert(offered_display_name(events, k).len() == 0);
                } else {
                    assert(offered_display_name(events, i) == offered_display_name(prev, i));
                    assert forall|j: int| 0 <= j < i implies #[trigger] offered_display_name(prev, j).len()
                        == 0 by {
                        assert(offered_display_name(events, j) == offered_display_name(prev, j));
                    }
                }
            }
        }
    }
}

/// How a manifest's identity and display name follow from its events.
///
/// The identity is the name offered by the first `Identity` tag whose last
/// well-formed `Name` attribute is not empty, and is empty when no tag offers
/// one. The display name is the trimmed text of the first text event that lies
/// inside a `DisplayName` element and is not blank, and is empty when there is
/// none.
pub proof fn lemma_manifest_reading_rule(events: Seq<XmlEvent>)
    ensures
        (forall|i: int| 0 <= i < events.len() ==> #[trigger] offered_identity(events[i]).len() == 0)
            ==> scan_events(events).0.len() == 0,
        forall|i: int|
            0 <= i < events.len() && offered_identity(events[i]).len() > 0 && (forall|j: int|
                0 <= j < i ==> #[trigger] offered_identity(events[j]).len() == 0) ==> scan_events(
                events,
            ).0 == #[trigger] offered_identity(events[i]),
        (forall|i: int| 0 <= i < events.len() ==> #[trigger] offered_display_name(events, i).len() == 0)
            ==> scan_events(events).1.len() == 0,
        forall|i: int|
            0 <= i < events.len() && offered_display_name(events, i).len() > 0 && (forall|j: int|
                0 <= j < i ==> #[trigger] offered_display_name(events, j).len() == 0) ==> scan_events(
                events,
            ).1 == #[trigger] offered_display_name(events, i),
{
    lemma_scan_identity(events);
    lemma_scan_display(events);
}

fn tag_identity(t: &XmlTag, current: &String) -> (r: String)
    ensures
        r@ == name_attribute(t.attributes@, current@),
{
    let mut id = current.clone();
    let mut j: usize = 0;
    assert(t.attributes@.skip(0) =~= t.attributes@);
    while j < t.attributes.len()
        invariant
            j <= t.attributes@.len(),
            name_attribute(t.attributes@, current@) == name_attribute(
                t.attributes@.skip(j as int),
                id@,
            ),
        decreases t.attributes@.len() - j,
    {
        assert(t.attributes@.skip(j as int).skip(1) =~= t.attributes@.skip(j + 1));
        match &t.attributes[j] {
            Some((k, v)) => {
                if str_equal(k.as_str(), "Name") {
                    id = v.clone();
                }
            },
            None => {},
        }
        j = j + 1;
    }
    id
}

/// The message for a manifest without an identity.
pub open spec fn no_identity_message(path: Seq<char>) -> Seq<char> {
    "No <Identity Name=\"...\"> found in "@ + path
}

/// The message for a manifest whose XML could not be read.
pub open spec fn xml_error_message(path: Seq<char>, reason: Seq<char>) -> Seq<char> {
    "Failed to parse "@ + path + ": "@ + reason
}

/// Reads the identity and display name from the events of a manifest.
pub fn manifest_from_events(path: &str, events: &Vec<XmlEvent>) -> (r: Result<ParsedManifest, Error>)
    ensures
        ({
            let (id, dn, _) = scan_events(events@);
            if id.len() == 0 {
                r matches Err(e) && e.kind == ErrorKind::InvalidManifest && e.message@
                    == no_identity_message(path@)
            } else {
                r matches Ok(m) && m.identity_name@ == id && m.display_name@ == dn
            }
        }),
{
    let mut identity = String::new();
    let mut display = String::new();
    let mut inside = false;
    let mut i: usize = 0;
    while i < events.len()
        invariant
            i <= events@.len(),
            scan_events(events@.subrange(0, i as int)) == (identity@, display@, inside),
        decreases events@.len() - i,
    {
        assert(events@.subrange(0, i + 1).drop_last() =~= events@.subrange(0, i as int));
        match &events[i] {
            XmlEvent::Start(t) => {
                if str_equal(t.name.as_str(), "Identity") && identity.unicode_len() == 0 {
                    identity = tag_identity(t, &identity);
                } else if str_equal(t.name.as_str(), "DisplayName") && display.unicode_len() == 0 {
                    inside = true;
                }
            },
            XmlEvent::Empty(t) => {
                if str_equal(t.name.as_str(), "Identity") && identity.unicode_len() == 0 {
                    identity = tag_identity(t, &identity);
                }
            },
            XmlEvent::Text(x) => {
                if inside && display.unicode_len() == 0 {
                    let trimmed = trim(x.as_str());
                    if trimmed.unicode_len() > 0 {
                        display = trimmed;
                    }
                }
            },
            XmlEvent::End(n) => {
                if str_equal(n.as_str(), "DisplayName") {
                    inside = false;
                }
            },
            _ => {},
        }
        i = i + 1;
    }
    assert(events@.subrange(0, events@.len() as int) =~= events@);
    if identity.unicode_len() == 0 {
        let mut m = String::from_str("No <Identity Name=\"...\"> found in ");
        m.append(path);
        return Err(Error::new(ErrorKind::InvalidManifest, m));
    }
    Ok(ParsedManifest { identity_name: identity, display_name: display })
}

/// Parses the text of the manifest found at `path`.
///
/// The text is read as XML events with their text trimmed (`xml_events`); an
/// XML error fails with `InvalidManifest`, and so does a manifest without an
/// `Identity` name. Otherwise the identity and display name are those that
/// `scan_events` gives for the events of the text.
pub fn parse_manifest(path: &str, xml: &str) -> (r: Result<ParsedManifest, Error>)
    ensures
        match xml_events(xml@) {
            None => r matches Err(e) && e.kind == ErrorKind::InvalidManifest && exists|
                reason: Seq<char>,
            | fails_with(xml@, reason) && e.message@ == #[trigger] xml_error_message(path@, reason),
            Some(events) => if scan_events(events).0.len() == 0 {
                r matches Err(e) && e.kind == ErrorKind::InvalidManifest && e.message@
                    == no_identity_message(path@)
            } else {
                r matches Ok(m) && m.identity_name@ == scan_events(events).0 && m.display_name@
                    == scan_events(events).1
            },
        },
{
    match read_events(xml) {
        Err(message) => {
            let mut m = String::from_str("Failed to parse ");
            m.append(path);
            m.append(": ");
            m.append(message.as_str());
            proof {
                reveal_strlit("Failed to parse ");
                reveal_strlit(": ");
                assert(m@ =~= xml_error_message(path@, message@));
            }
            Err(Error::new(ErrorKind::InvalidManifest, m))
        },
        Ok(events) => manifest_from_events(path, &events),
    }
}

} // verus!
