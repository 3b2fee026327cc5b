//! The events of an XML document, with the byte offsets at which they stand.

use crate::text;
use quick_xml::events::BytesStart;
use quick_xml::events::Event::{Empty, End, Eof, Start, Text};
use quick_xml::Reader;
use vstd::prelude::*;

verus! {

/// What stands between two offsets of a document, as it was read.
#[derive(Debug)]
pub enum RawEvent {
    /// An opening tag: its name, and all that stands between its brackets, without
    /// the slash of an empty element.
    Tag { empty: bool, name: String, content: String },
    /// A closing tag's name.
    End(String),
    /// Character data, unless it cannot be unescaped.
    Text(Option<String>),
    /// A comment, a declaration, or anything else.
    Other,
    /// The document cannot be read any further.
    Malformed,
}

/// An event and the byte offsets before and behind it.
#[derive(Debug)]
pub struct RawStep {
    pub start: u64,
    pub end: u64,
    pub event: RawEvent,
}

/// The text of an event.
pub enum RawEventView {
    Tag { empty: bool, name: Seq<char>, content: Seq<char> },
    End(Seq<char>),
    Text(Option<Seq<char>>),
    Other,
    Malformed,
}

/// An event and the byte offsets before and behind it.
pub struct RawStepView {
    pub start: u64,
    pub end: u64,
    pub event: RawEventView,
}

impl View for RawStep {
    type V = RawStepView;

    open spec fn view(&self) -> RawStepView {
        RawStepView {
            start: self.start,
            end: self.end,
            event: match self.event {
                RawEvent::Tag { empty, name, content } => RawEventView::Tag {
                    empty,
                    name: name@,
                    content: content@,
                },
                RawEvent::End(name) => RawEventView::End(name@),
                RawEvent::Text(t) => RawEventView::Text(text::opt_text(t)),
                RawEvent::Other => RawEventView::Other,
                RawEvent::Malformed => RawEventView::Malformed,
            },
        }
    }
}

/// `quick_xml::Reader`, a reader of XML events.
#[verifier::external_type_specification]
#[verifier::external_body]
#[verifier::reject_recursive_types(R)]
pub struct ExReader<R>(quick_xml::Reader<R>);

/// The events of a document, up to its end or to the first place where it cannot
/// be read any further.
pub uninterp spec fn raw_events(document: Seq<char>) -> Seq<RawStepView>;

/// The events that a reader still has to give.
pub uninterp spec fn events_left(reader: quick_xml::Reader<&[u8]>) -> Seq<RawStepView>;

/// `Reader::from_str` starts at the beginning of a document, with all of its events
/// still to come.
#[verifier::external_body]
fn open_document<'a>(document: &'a str) -> (reader: Reader<&'a [u8]>)
    ensures
        events_left(reader) == raw_events(document@),
{
    Reader::from_str(document)
}

/// `Reader::read_event` gives the events one after the other, and `Eof` when there
/// is none left; `Reader::buffer_position` is the byte offset reached. The name of
/// a tag is what its content starts with. Nothing is said of what follows an event
/// that could not be read.
#[verifier::external_body]
fn read_step(reader: &mut Reader<&[u8]>) -> (r: Option<RawStep>)
    ensures
        match r {
            Some(step) => {
                &&& events_left(*old(reader)).len() > 0
                &&& step@ == events_left(*old(reader))[0]
                &&& !(step.event is Malformed) ==> events_left(*final(reader)) == events_left(
                    *old(reader),
                ).drop_first()
                &&& match step@.event {
                    RawEventView::Tag { empty, name, content } => text::starts_with(content, name),
                    _ => true,
                }
            },
            None => events_left(*old(reader)).len() == 0,
        },
{
    let start = reader.buffer_position();
    let read = reader.read_event();
    let empty = matches!(read, Ok(Empty(_)));
    let event = match read {
        Ok(Eof) => return None,
        Ok(Start(e) | Empty(e)) => RawEvent::Tag { empty, name: String::from_utf8_lossy(e.name().0).into_owned(), content: String::from_utf8_lossy(&e).into_owned() },
        Ok(End(e)) => RawEvent::End(String::from_utf8_lossy(e.name().0).into_owned()),
        Ok(Text(t)) => RawEvent::Text(t.unescape().ok().map(String::from)),
        Ok(_) => RawEvent::Other,
        Err(_) => RawEvent::Malformed,
    };
    Some(RawStep { start, end: reader.buffer_position(), event })
}

/// An attribute of a tag.
#[derive(Debug)]
pub struct XmlAttr {
    pub key: String,
    /// The value as it is written.
    pub raw: String,
    /// The value with its escapes resolved, unless that fails.
    pub unescaped: Option<String>,
}

/// The text of an attribute.
pub struct XmlAttrView {
    pub key: Seq<char>,
    pub raw: Seq<char>,
    pub unescaped: Option<Seq<char>>,
}

impl View for XmlAttr {
    type V = XmlAttrView;

    open spec fn view(&self) -> XmlAttrView {
        XmlAttrView {
            key: self.key@,
            raw: self.raw@,
            unescaped: text::opt_text(self.unescaped),
        }
    }
}

/// The well-formed attributes of a tag with the given content and name.
pub uninterp spec fn attributes(content: Seq<char>, name: Seq<char>) -> Seq<XmlAttrView>;

/// `BytesStart::attributes` lists the attributes of a tag; those that cannot be
/// read are left out.
#[verifier::external_body]
fn read_attributes(content: &str, name: &str) -> (r: Vec<XmlAttr>)
    requires
        text::starts_with(content@, name@),
    ensures
        r@.map_values(|a: XmlAttr| a@) == attributes(content@, name@),
{
    BytesStart::from_content(content, name.len()).attributes().flatten().map(|a| XmlAttr {
        key: String::from_utf8_lossy(a.key.as_ref()).into_owned(),
        raw: String::from_utf8_lossy(a.value.as_ref()).into_owned(),
        unescaped: a.unescape_value().ok().map(|c| c.into_owned()),
    }).collect()
}

/// What stands between two offsets of a document.
#[derive(Debug)]
pub enum XmlEvent {
    /// An opening tag.
    Tag { empty: bool, name: String, attrs: Vec<XmlAttr> },
    /// A closing tag's name.
    End(String),
    /// Character data, unless it cannot be unescaped.
    Text(Option<String>),
    /// A comment, a declaration, or anything else.
    Other,
    /// The document cannot be read any further.
    Malformed,
}

/// An event and the byte offsets before and behind it.
#[derive(Debug)]
pub struct XmlStep {
    pub start: u64,
    pub end: u64,
    pub event: XmlEvent,
}

/// The text of an event.
pub enum XmlEventView {
    Tag { empty: bool, name: Seq<char>, attrs: Seq<XmlAttrView> },
    End(Seq<char>),
    Text(Option<Seq<char>>),
    Other,
    Malformed,
}

/// An event and the byte offsets before and behind it.
pub struct XmlStepView {
    pub start: u64,
    pub end: u64,
    pub event: XmlEventView,
}

/// The text of a list of attributes.
pub open spec fn attr_views(attrs: Seq<XmlAttr>) -> Seq<XmlAttrView> {
    attrs.map_values(|a: XmlAttr| a@)
}

impl View for XmlStep {
    type V = XmlStepView;

    open spec fn view(&self) -> XmlStepView {
        XmlStepView {
            start: self.start,
            end: self.end,
            event: match self.event {
                XmlEvent::Tag { empty, name, attrs } => XmlEventView::Tag {
                    empty,
                    name: name@,
                    attrs: attr_views(attrs@),
                },
                XmlEvent::End(name) => XmlEventView::End(name@),
                XmlEvent::Text(t) => XmlEventView::Text(text::opt_text(t)),
                XmlEvent::Other => XmlEventView::Other,
                XmlEvent::Malformed => XmlEventView::Malformed,
            },
        }
    }
}

/// The text of a list of events.
pub open spec fn step_views(steps: Seq<XmlStep>) -> Seq<XmlStepView> {
    steps.map_values(|s: XmlStep| s@)
}

/// An event with the attributes of its tag.
pub open spec fn with_attributes(raw: RawStepView) -> XmlStepView {
    XmlStepView {
        start: raw.start,
        end: raw.end,
        event: match raw.event {
            RawEventView::Tag { empty, name, content } => XmlEventView::Tag {
                empty,
                name,
                attrs: attributes(content, name),
            },
            RawEventView::End(name) => XmlEventView::End(name),
            RawEventView::Text(t) => XmlEventView::Text(t),
            RawEventView::Other => XmlEventView::Other,
            RawEventView::Malformed => XmlEventView::Malformed,
        },
    }
}

/// A list of events up to the first that could not be read.
pub open spec fn readable(raw: Seq<RawStepView>) -> Seq<XmlStepView>
    decreases raw.len(),
{
    if raw.len() == 0 {
        Seq::empty()
    } else if raw[0].event is Malformed {
        seq![with_attributes(raw[0])]
    } else {
        seq![with_attributes(raw[0])] + readable(raw.drop_first())
    }
}

/// The events of a document, with the attributes of its tags, up to its end or to
/// the first place where it cannot be read any further.
pub open spec fn document_events(document: Seq<char>) -> Seq<XmlStepView> {
    readable(raw_events(document))
}

fn add_attributes(raw: RawStep) -> (r: XmlStep)
    requires
        match raw@.event {
            RawEventView::Tag { empty, name, content } => text::starts_with(content, name),
            _ => true,
        },
    ensures
        r@ == with_attributes(raw@),
        r.event is Malformed <==> raw.event is Malformed,
{
    let event = match raw.event {
        RawEvent::Tag { empty, name, content } => {
            let attrs = read_attributes(content.as_str(), name.as_str());
            XmlEvent::Tag { empty, name, attrs }
        },
        RawEvent::End(name) => XmlEvent::End(name),
        RawEvent::Text(t) => XmlEvent::Text(t),
        RawEvent::Other => XmlEvent::Other,
        RawEvent::Malformed => XmlEvent::Malformed,
    };
    XmlStep { start: raw.start, end: raw.end, event }
}

/// Reads the events of a document, up to its end or to the first place where it
/// cannot be read any further.
pub fn read_document(document: &str) -> (steps: Vec<XmlStep>)
    ensures
        step_views(steps@) == document_events(document@),
{
    let mut reader = open_document(document);
    let mut steps: Vec<XmlStep> = Vec::new();
    let ghost all = document_events(document@);
    assert(step_views(steps@) + all =~= all);
    loop
        invariant
            step_views(steps@) + readable(events_left(reader)) == all,
            all == document_events(document@),
        decreases events_left(reader).len(),
    {
        let ghost left = events_left(reader);
        match read_step(&mut reader) {
            None => {
                assert(step_views(steps@) + Seq::<XmlStepView>::empty() =~= step_views(steps@));
                return steps;
            },
            Some(raw) => {
                let ghost before = step_views(steps@);
                let step = add_attributes(raw);
                let done: bool = match step.event {
                    XmlEvent::Malformed => true,
                    _ => false,
                };
                steps.push(step);
                assert(step_views(steps@) =~= before.push(step@));
                if done {
                    assert(before + seq![step@] =~= step_views(steps@));
                    return steps;
                }
                assert(before + (seq![step@] + readable(left.drop_first())) =~= step_views(steps@)
                    + readable(left.drop_first()));
            },
        }
    }
}

/// The events of a document are those that were read, in order, up to the first place where it
/// cannot be read any further, and that place is told.
pub proof fn events_are_told_up_to_the_first_fault(raw: Seq<RawStepView>, k: int)
    requires
        0 <= k <= raw.len(),
        forall|j: int| 0 <= j < k ==> !((#[trigger] raw[j]).event is Malformed),
        k < raw.len() ==> raw[k].event is Malformed,
    ensures
        readable(raw).len() == if k < raw.len() {
            k + 1
        } else {
            k
        },
        forall|j: int|
            0 <= j < readable(raw).len() ==> {
                &&& (#[trigger] readable(raw)[j]).start == raw[j].start
                &&& readable(raw)[j].end == raw[j].end
                &&& readable(raw)[j].event == with_attributes(raw[j]).event
            },
        k < raw.len() ==> readable(raw)[k].event is Malformed,
    decreases k,
{
    if raw.len() > 0 && k > 0 {
        let t = raw.drop_first();
        assert(!(raw[0].event is Malformed));
        assert forall|j: int| 0 <= j < k - 1 implies !((#[trigger] t[j]).event is Malformed) by {
            assert(t[j] == raw[j + 1]);
        }
        events_are_told_up_to_the_first_fault(t, k - 1);
        let all = readable(raw);
        assert(all =~= seq![with_attributes(raw[0])] + readable(t));
        assert forall|j: int| 0 <= j < all.len() implies {
            &&& (#[trigger] all[j]).start == raw[j].start
            &&& all[j].end == raw[j].end
            &&& all[j].event == with_attributes(raw[j]).event
        } by {
            if j > 0 {
                assert(all[j] == readable(t)[j - 1]);
                assert(t[j - 1] == raw[j]);
            }
        }
    }
}

} // verus!
