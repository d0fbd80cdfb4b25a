//! The event model: the parser consumes a flat stream of tokenizer events.
//! The events themselves come from the `pulldown_cmark` tokenizer through a
//! small trusted seam at the bottom of this file; everything above works on
//! the library's own event type and is verified.
use vstd::prelude::*;
use pulldown_cmark::{CodeBlockKind, Event as PdEvent, Tag as PdTag};

verus! {

/// How a code block was introduced: indented, or fenced with a language tag.
#[derive(Debug, PartialEq, Eq)]
pub enum CodeKind {
    Indented,
    Fenced(String),
}

/// The opening marker of a structural region.
#[derive(Debug, PartialEq, Eq)]
pub enum Tag {
    Paragraph,
    Heading(u32),
    BlockQuote,
    CodeBlock(CodeKind),
    /// A list; `Some` carries the ordinal of the first item of a numbered list.
    List(Option<u64>),
    Item,
    Emphasis,
    Strong,
    Strikethrough,
    /// Link payloads are opaque strings taken from the start marker.
    Link(String, String),
    Image(String, String),
    /// A construct outside the supported dialect (tables, footnote definitions).
    Unsupported,
}

/// One tokenizer event.
#[derive(Debug, PartialEq, Eq)]
pub enum Event {
    Start(Tag),
    End,
    Text(String),
    Code(String),
    Html(String),
    FootnoteReference,
    SoftBreak,
    HardBreak,
    Rule,
    TaskListMarker(bool),
}

/// Mathematical counterpart of `CodeKind`.
#[verifier::ext_equal]
pub enum CodeKindV {
    Indented,
    Fenced(Seq<char>),
}

/// Mathematical counterpart of `Tag`.
#[verifier::ext_equal]
pub enum TagV {
    Paragraph,
    Heading(u32),
    BlockQuote,
    CodeBlock(CodeKindV),
    List(Option<u64>),
    Item,
    Emphasis,
    Strong,
    Strikethrough,
    Link(Seq<char>, Seq<char>),
    Image(Seq<char>, Seq<char>),
    Unsupported,
}

/// Mathematical counterpart of `Event`.
#[verifier::ext_equal]
pub enum EventV {
    Start(TagV),
    End,
    Text(Seq<char>),
    Code(Seq<char>),
    Html(Seq<char>),
    FootnoteReference,
    SoftBreak,
    HardBreak,
    Rule,
    TaskListMarker(bool),
}

impl DeepView for CodeKind {
    type V = CodeKindV;

    open spec fn deep_view(&self) -> CodeKindV {
        match self {
            CodeKind::Indented => CodeKindV::Indented,
            CodeKind::Fenced(s) => CodeKindV::Fenced(s@),
        }
    }
}

impl DeepView for Tag {
    type V = TagV;

    open spec fn deep_view(&self) -> TagV {
        match self {
            Tag::Paragraph => TagV::Paragraph,
            Tag::Heading(l) => TagV::Heading(*l),
            Tag::BlockQuote => TagV::BlockQuote,
            Tag::CodeBlock(k) => TagV::CodeBlock(k.deep_view()),
            Tag::List(first) => TagV::List(*first),
            Tag::Item => TagV::Item,
            Tag::Emphasis => TagV::Emphasis,
            Tag::Strong => TagV::Strong,
            Tag::Strikethrough => TagV::Strikethrough,
            Tag::Link(t, u) => TagV::Link(t@, u@),
            Tag::Image(t, u) => TagV::Image(t@, u@),
            Tag::Unsupported => TagV::Unsupported,
        }
    }
}

impl DeepView for Event {
    type V = EventV;

    open spec fn deep_view(&self) -> EventV {
        match self {
            Event::Start(t) => EventV::Start(t.deep_view()),
            Event::End => EventV::End,
            Event::Text(s) => EventV::Text(s@),
            Event::Code(s) => EventV::Code(s@),
            Event::Html(s) => EventV::Html(s@),
            Event::FootnoteReference => EventV::FootnoteReference,
            Event::SoftBreak => EventV::SoftBreak,
            Event::HardBreak => EventV::HardBreak,
            Event::Rule => EventV::Rule,
            Event::TaskListMarker(b) => EventV::TaskListMarker(*b),
        }
    }
}

/// The event stream that the tokenizer yields for a text, with task lists and
/// strikethrough enabled. The tokenizer's output is a function of the text
/// alone; its value is not axiomatized here, only named.
pub uninterp spec fn events_of(s: Seq<char>) -> Seq<EventV>;

/// Relies on `pulldown_cmark::Parser::new_ext`: tokenizes the text with the
/// task-list and strikethrough extensions enabled. Each event is translated,
/// variant by variant, into the library's own event type; `tag_of` below
/// finishes the translation for start markers.
#[verifier::external_body]
pub fn tokenize(s: &str) -> (r: Vec<Event>)
    ensures
        r.deep_view() == events_of(s@),
{
    let mut opts = pulldown_cmark::Options::empty();
    opts.insert(pulldown_cmark::Options::ENABLE_TASKLISTS);
    opts.insert(pulldown_cmark::Options::ENABLE_STRIKETHROUGH);
    pulldown_cmark::Parser::new_ext(s, opts).map(|e| match e {
        PdEvent::Start(t) => Event::Start(tag_of(t)),
        PdEvent::End(_) => Event::End,
        PdEvent::Text(s) => Event::Text(s.into_string()),
        PdEvent::Code(s) => Event::Code(s.into_string()),
        PdEvent::Html(s) => Event::Html(s.into_string()),
        PdEvent::FootnoteReference(_) => Event::FootnoteReference,
        PdEvent::SoftBreak => Event::SoftBreak,
        PdEvent::HardBreak => Event::HardBreak,
        PdEvent::Rule => Event::Rule,
        PdEvent::TaskListMarker(b) => Event::TaskListMarker(b),
    }).collect()
}

#[verifier::external_type_specification]
#[verifier::external_body]
pub struct ExTag<'a>(PdTag<'a>);

/// The second half of the tokenizer seam: translates one `pulldown_cmark`
/// start tag, variant by variant and moving fields only. Tags outside the
/// supported dialect all become `Tag::Unsupported`, which the parser rejects.
#[verifier::external_body]
fn tag_of(t: PdTag<'_>) -> (r: Tag) {
    match t {
        PdTag::Paragraph => Tag::Paragraph,
        PdTag::Heading(l) => Tag::Heading(l),
        PdTag::BlockQuote => Tag::BlockQuote,
        PdTag::CodeBlock(CodeBlockKind::Indented) => Tag::CodeBlock(CodeKind::Indented),
        PdTag::CodeBlock(CodeBlockKind::Fenced(l)) => Tag::CodeBlock(CodeKind::Fenced(l.into_string())),
        PdTag::List(first) => Tag::List(first),
        PdTag::Item => Tag::Item,
        PdTag::Emphasis => Tag::Emphasis,
        PdTag::Strong => Tag::Strong,
        PdTag::Strikethrough => Tag::Strikethrough,
        PdTag::Link(_, a, b) => Tag::Link(a.into_string(), b.into_string()),
        PdTag::Image(_, a, b) => Tag::Image(a.into_string(), b.into_string()),
        _ => Tag::Unsupported,
    }
}

/// A verified copy of a code-block kind, equal in value to the original.
pub fn clone_code_kind(k: &CodeKind) -> (r: CodeKind)
    ensures
        r.deep_view() == k.deep_view(),
{
    match k {
        CodeKind::Indented => CodeKind::Indented,
        CodeKind::Fenced(s) => CodeKind::Fenced(s.clone()),
    }
}

/// A verified copy of a tag, equal in value to the original.
pub fn clone_tag(t: &Tag) -> (r: Tag)
    ensures
        r.deep_view() == t.deep_view(),
{
    match t {
        Tag::Paragraph => Tag::Paragraph,
        Tag::Heading(l) => Tag::Heading(*l),
        Tag::BlockQuote => Tag::BlockQuote,
        Tag::CodeBlock(k) => Tag::CodeBlock(clone_code_kind(k)),
        Tag::List(first) => Tag::List(*first),
        Tag::Item => Tag::Item,
        Tag::Emphasis => Tag::Emphasis,
        Tag::Strong => Tag::Strong,
        Tag::Strikethrough => Tag::Strikethrough,
        Tag::Link(t1, u) => Tag::Link(t1.clone(), u.clone()),
        Tag::Image(t1, u) => Tag::Image(t1.clone(), u.clone()),
        Tag::Unsupported => Tag::Unsupported,
    }
}

/// A verified copy of an event, equal in value to the original.
pub fn clone_event(e: &Event) -> (r: Event)
    ensures
        r.deep_view() == e.deep_view(),
{
    match e {
        Event::Start(t) => Event::Start(clone_tag(t)),
        Event::End => Event::End,
        Event::Text(s) => Event::Text(s.clone()),
        Event::Code(s) => Event::Code(s.clone()),
        Event::Html(s) => Event::Html(s.clone()),
        Event::FootnoteReference => Event::FootnoteReference,
        Event::SoftBreak => Event::SoftBreak,
        Event::HardBreak => Event::HardBreak,
        Event::Rule => Event::Rule,
        Event::TaskListMarker(b) => Event::TaskListMarker(*b),
    }
}

} // verus!
