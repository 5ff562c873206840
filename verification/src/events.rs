//! The event model of a markdown document.
//!
//! A document is parsed by `pulldown_cmark` into a stream of events.  The
//! library reads only a handful of event shapes — rule markers, soft breaks,
//! text, and the fenced-code delimiters — so those are mirrored as plain
//! values in [`MdEvent`], while every other event is carried through opaquely
//! and handed back unchanged when the stream is serialized to HTML.

use vstd::prelude::*;

use pulldown_cmark::{CodeBlockKind, Event, Options, Parser, Tag, TagEnd};

verus! {

#[verifier::external_type_specification]
#[verifier::external_body]
pub struct ExTagEnd(TagEnd);

#[verifier::external_type_specification]
#[verifier::external_body]
pub struct ExEvent<'a>(Event<'a>);

/// One event of a markdown document, as the library sees it.
pub enum MdEvent {
    /// A horizontal rule marker; frontmatter regions are delimited by these.
    Rule,
    /// A soft line break.
    SoftBreak,
    /// A text node.
    Text(String),
    /// The start of a code block: `Some(tag)` for a fenced block with its
    /// language tag, `None` for an indented block.
    CodeStart(Option<String>),
    /// The end of a code block.
    CodeEnd,
    /// The end of any element other than a code block.
    OtherEnd(TagEnd),
    /// A raw HTML fragment produced by syntax highlighting.
    Html(String),
    /// Any other event, carried through unchanged.
    Other(Event<'static>),
}

/// The mathematical value of an [`MdEvent`]: text is a character sequence,
/// opaque events stand for themselves.
pub enum EventRep {
    Rule,
    SoftBreak,
    Text(Seq<char>),
    CodeStart(Option<Seq<char>>),
    CodeEnd,
    OtherEnd(TagEnd),
    Html(Seq<char>),
    Other(Event<'static>),
}

impl View for MdEvent {
    type V = EventRep;

    open spec fn view(&self) -> EventRep {
        match self {
            MdEvent::Rule => EventRep::Rule,
            MdEvent::SoftBreak => EventRep::SoftBreak,
            MdEvent::Text(t) => EventRep::Text(t@),
            MdEvent::CodeStart(l) => EventRep::CodeStart(match l {
                Some(s) => Some(s@),
                None => None,
            }),
            MdEvent::CodeEnd => EventRep::CodeEnd,
            MdEvent::OtherEnd(te) => EventRep::OtherEnd(*te),
            MdEvent::Html(h) => EventRep::Html(h@),
            MdEvent::Other(e) => EventRep::Other(*e),
        }
    }
}

impl DeepView for MdEvent {
    type V = EventRep;

    open spec fn deep_view(&self) -> EventRep {
        self.view()
    }
}

/// The event stream that `pulldown_cmark` produces for a given text.  The
/// parser is deterministic, so the stream is a function of the text alone.
pub uninterp spec fn events_of(text: Seq<char>) -> Seq<EventRep>;

/// The HTML that `pulldown_cmark` serializes a given event stream to.  The
/// serializer is deterministic, so the output is a function of the events
/// alone.
pub uninterp spec fn html_of(events: Seq<EventRep>) -> Seq<char>;

/// Relies on `pulldown_cmark::Parser::new_ext`: parsing is a pure function
/// of the input text.  The metadata-block extensions are left off so that
/// frontmatter delimiters arrive as rule events, as the frontmatter parser
/// expects; every other extension is enabled.
#[verifier::external_body]
pub(crate) fn parse_events(text: &str) -> (r: Vec<MdEvent>)
    ensures
        r.deep_view() == events_of(text@),
{
    let options = Options::all().difference(
        Options::ENABLE_YAML_STYLE_METADATA_BLOCKS | Options::ENABLE_PLUSES_DELIMITED_METADATA_BLOCKS,
    );
    Parser::new_ext(text, options).map(classify_event).collect()
}

/// Relies on the shape of `pulldown_cmark::Event`: converts one event into
/// the library's model, arm by arm, moving the fields.
#[verifier::external_body]
fn classify_event(ev: Event<'_>) -> MdEvent {
    match ev {
        Event::Rule => MdEvent::Rule,
        Event::SoftBreak => MdEvent::SoftBreak,
        Event::Text(t) => MdEvent::Text(t.to_string()),
        Event::Start(Tag::CodeBlock(CodeBlockKind::Fenced(lang))) => {
            MdEvent::CodeStart(Some(lang.to_string()))
        },
        Event::Start(Tag::CodeBlock(CodeBlockKind::Indented)) => MdEvent::CodeStart(None),
        Event::End(TagEnd::CodeBlock) => MdEvent::CodeEnd,
        Event::End(te) => MdEvent::OtherEnd(te),
        e => MdEvent::Other(e.into_static()),
    }
}

/// Relies on `pulldown_cmark::html::push_html`: serialization to HTML is a
/// pure function of the event stream.
#[verifier::external_body]
pub(crate) fn events_to_html(events: Vec<MdEvent>) -> (r: String)
    ensures
        r@ == html_of(events.deep_view()),
{
    let mut s = String::new();
    pulldown_cmark::html::push_html(&mut s, events.into_iter().map(raw_event));
    s
}

/// Relies on the shape of `pulldown_cmark::Event`: converts one event of the
/// library's model back, arm by arm, moving the fields.
#[verifier::external_body]
fn raw_event(ev: MdEvent) -> Event<'static> {
    match ev {
        MdEvent::Rule => Event::Rule,
        MdEvent::SoftBreak => Event::SoftBreak,
        MdEvent::Text(t) => Event::Text(t.into()),
        MdEvent::CodeStart(Some(lang)) => {
            Event::Start(Tag::CodeBlock(CodeBlockKind::Fenced(lang.into())))
        },
        MdEvent::CodeStart(None) => Event::Start(Tag::CodeBlock(CodeBlockKind::Indented)),
        MdEvent::CodeEnd => Event::End(TagEnd::CodeBlock),
        MdEvent::OtherEnd(te) => Event::End(te),
        MdEvent::Html(h) => Event::Html(h.into()),
        MdEvent::Other(e) => e,
    }
}

} // verus!
