//! The grammar of the supported dialect, written as a mathematical parser
//! over event sequences. The executable parser is proved equal to these
//! functions, so every contract about parsing goes through them.
use vstd::prelude::*;
use crate::events::{EventV, TagV, CodeKindV};
use crate::{BlockV, InlineV, ListItemV, ListType};

verus! {

/// Mathematical counterpart of `ParseError`: the event that was out of place,
/// under the rule that rejected it.
#[verifier::ext_equal]
pub enum ParseErrV {
    /// An event appeared in a structural position the grammar does not allow.
    UnexpectedElement(EventV),
    /// A text-only context (a code block body) received a non-text event.
    NoText(EventV),
    /// Extra content stood where only a terminating marker was expected.
    ExpectedEnd(EventV),
}

/// The outcome of one grammar rule: a value or an error, and the position of
/// the first event that the rule did not consume.
#[verifier::ext_equal]
pub struct Parsed<T> {
    pub res: Result<T, ParseErrV>,
    pub next: int,
}

/// Prefixes a parsed sequence with already-parsed elements; errors pass through.
pub open spec fn parsed_prefixed<T>(pre: Seq<T>, p: Parsed<Seq<T>>) -> Parsed<Seq<T>> {
    match p.res {
        Ok(s) => Parsed { res: Ok(pre + s), next: p.next },
        Err(_) => p,
    }
}

/// Prefixes with a single element.
pub open spec fn parsed_cons<T>(x: T, p: Parsed<Seq<T>>) -> Parsed<Seq<T>> {
    parsed_prefixed(seq![x], p)
}

/// An error outcome.
pub open spec fn parsed_err<T>(e: ParseErrV, next: int) -> Parsed<T> {
    Parsed { res: Err(e), next }
}

/// Carries a sub-rule's error outcome into the caller's result type.
pub open spec fn parsed_fail<A, T>(p: Parsed<A>, e: ParseErrV) -> Parsed<T> {
    Parsed { res: Err(e), next: p.next }
}

/// The cursor after a sub-rule, guarded into `i + 1 ..= n` so that the
/// recursion is visibly well-founded. The executable parser's contracts show
/// that a sub-rule's cursor always lands in that range, so the guard never
/// alters the parse.
pub open spec fn step(i: int, j: int, n: int) -> int {
    if i < j <= n {
        j
    } else {
        i + 1
    }
}

/// The body of a code block: at most one text event, bounded by an end marker
/// or the end of the stream.
pub open spec fn sp_text(evs: Seq<EventV>, i: int) -> Parsed<Seq<char>> {
    if i < 0 || i >= evs.len() {
        Parsed { res: Ok(Seq::empty()), next: i }
    } else {
        match evs[i] {
            EventV::Text(s) => {
                if i + 1 >= evs.len() {
                    Parsed { res: Ok(s), next: i + 1 }
                } else if evs[i + 1] is End {
                    Parsed { res: Ok(s), next: i + 2 }
                } else {
                    parsed_err(ParseErrV::ExpectedEnd(evs[i + 1]), i + 2)
                }
            },
            EventV::End => Parsed { res: Ok(Seq::empty()), next: i + 1 },
            e => parsed_err(ParseErrV::NoText(e), i + 1),
        }
    }
}

/// Inline content in full mode: runs to the matching end marker and consumes it.
pub open spec fn sp_inlines(evs: Seq<EventV>, i: int) -> Parsed<Seq<InlineV>>
    decreases evs.len() - i, 1int,
{
    if i < 0 || i >= evs.len() {
        Parsed { res: Ok(Seq::empty()), next: i }
    } else {
        match evs[i] {
            EventV::Start(tag) => match tag {
                TagV::Emphasis => sp_inline_wrapped(evs, i, true, false),
                TagV::Strong => sp_inline_wrapped(evs, i, true, true),
                TagV::Strikethrough => sp_inline_strike(evs, i, true),
                TagV::Link(t, u) => sp_inline_ref(evs, i, true, InlineV::Link(t, u)),
                TagV::Image(t, u) => sp_inline_ref(evs, i, true, InlineV::Image(t, u)),
                _ => parsed_err(ParseErrV::UnexpectedElement(evs[i]), i + 1),
            },
            EventV::End => Parsed { res: Ok(Seq::empty()), next: i + 1 },
            EventV::Text(s) => parsed_cons(InlineV::Plain(s), sp_inlines(evs, i + 1)),
            EventV::Code(s) => parsed_cons(InlineV::Code(s), sp_inlines(evs, i + 1)),
            EventV::Html(s) => parsed_cons(InlineV::Html(s), sp_inlines(evs, i + 1)),
            EventV::SoftBreak => parsed_cons(InlineV::SoftBreak, sp_inlines(evs, i + 1)),
            EventV::HardBreak => parsed_cons(InlineV::HardBreak, sp_inlines(evs, i + 1)),
            EventV::Rule => sp_inlines(evs, i + 1),
            _ => parsed_err(ParseErrV::UnexpectedElement(evs[i]), i + 1),
        }
    }
}

/// A nested emphasis or strong region in either mode (`strong` selects which).
pub open spec fn sp_inline_wrapped(evs: Seq<EventV>, i: int, full: bool, strong: bool) -> Parsed<
    Seq<InlineV>,
>
    decreases evs.len() - i, 0int,
{
    if !(0 <= i < evs.len()) {
        Parsed { res: Ok(Seq::empty()), next: i + 1 }
    } else {
        let inner = if full {
            sp_inlines(evs, i + 1)
        } else {
            sp_tight_nested(evs, i + 1)
        };
        match inner.res {
            Err(e) => parsed_fail(inner, e),
            Ok(ins) => {
                let wrapped = if strong {
                    InlineV::Strong(ins)
                } else {
                    InlineV::Emph(ins)
                };
                let rest = if full {
                    sp_inlines(evs, step(i, inner.next, evs.len() as int))
                } else {
                    sp_tight(evs, step(i, inner.next, evs.len() as int))
                };
                parsed_cons(wrapped, rest)
            },
        }
    }
}

/// A nested strikethrough region in either mode.
pub open spec fn sp_inline_strike(evs: Seq<EventV>, i: int, full: bool) -> Parsed<Seq<InlineV>>
    decreases evs.len() - i, 0int,
{
    if !(0 <= i < evs.len()) {
        Parsed { res: Ok(Seq::empty()), next: i + 1 }
    } else {
        let inner = if full {
            sp_inlines(evs, i + 1)
        } else {
            sp_tight_nested(evs, i + 1)
        };
        match inner.res {
            Err(e) => parsed_fail(inner, e),
            Ok(ins) => {
                let rest = if full {
                    sp_inlines(evs, step(i, inner.next, evs.len() as int))
                } else {
                    sp_tight(evs, step(i, inner.next, evs.len() as int))
                };
                parsed_cons(InlineV::Strikethrough(ins), rest)
            },
        }
    }
}

/// A link or image: its payload comes whole from the start marker, and the
/// matching end marker is discarded without recursion.
pub open spec fn sp_inline_ref(evs: Seq<EventV>, i: int, full: bool, x: InlineV) -> Parsed<
    Seq<InlineV>,
>
    decreases evs.len() - i, 0int,
{
    if i + 1 >= evs.len() {
        Parsed { res: Ok(seq![x]), next: i + 1 }
    } else if evs[i + 1] is End {
        let rest = if full {
            sp_inlines(evs, i + 2)
        } else {
            sp_tight(evs, i + 2)
        };
        parsed_cons(x, rest)
    } else {
        parsed_err(ParseErrV::ExpectedEnd(evs[i + 1]), i + 2)
    }
}

/// Inline content in tight-paragraph mode: token handling as in full mode,
/// but any block-start marker or unmatched end marker terminates the rule
/// without being consumed.
pub open spec fn sp_tight(evs: Seq<EventV>, i: int) -> Parsed<Seq<InlineV>>
    decreases evs.len() - i, 1int,
{
    if i < 0 || i >= evs.len() {
        Parsed { res: Ok(Seq::empty()), next: i }
    } else {
        match evs[i] {
            EventV::Start(tag) => match tag {
                TagV::Emphasis => sp_inline_wrapped(evs, i, false, false),
                TagV::Strong => sp_inline_wrapped(evs, i, false, true),
                TagV::Strikethrough => sp_inline_strike(evs, i, false),
                TagV::Link(t, u) => sp_inline_ref(evs, i, false, InlineV::Link(t, u)),
                TagV::Image(t, u) => sp_inline_ref(evs, i, false, InlineV::Image(t, u)),
                _ => Parsed { res: Ok(Seq::empty()), next: i },
            },
            EventV::End => Parsed { res: Ok(Seq::empty()), next: i },
            EventV::Text(s) => parsed_cons(InlineV::Plain(s), sp_tight(evs, i + 1)),
            EventV::Code(s) => parsed_cons(InlineV::Code(s), sp_tight(evs, i + 1)),
            EventV::Html(s) => parsed_cons(InlineV::Html(s), sp_tight(evs, i + 1)),
            EventV::SoftBreak => parsed_cons(InlineV::SoftBreak, sp_tight(evs, i + 1)),
            EventV::HardBreak => parsed_cons(InlineV::HardBreak, sp_tight(evs, i + 1)),
            EventV::Rule => sp_tight(evs, i + 1),
            _ => parsed_err(ParseErrV::UnexpectedElement(evs[i]), i + 1),
        }
    }
}

/// The content of a nested emphasis region in tight mode: parsed tight, then
/// the matching end marker (which tight mode leaves unconsumed) is taken.
pub open spec fn sp_tight_nested(evs: Seq<EventV>, i: int) -> Parsed<Seq<InlineV>>
    decreases evs.len() - i, 2int,
{
    let inner = sp_tight(evs, i);
    match inner.res {
        Err(_) => inner,
        Ok(ins) => {
            let j = inner.next;
            if 0 <= j < evs.len() && evs[j] is End {
                Parsed { res: Ok(ins), next: j + 1 }
            } else {
                inner
            }
        },
    }
}

/// A sequence of blocks: the top level of a document, the inside of a quote,
/// or the content of a list item. An end marker or the end of the stream
/// terminates it.
pub open spec fn sp_blocks(evs: Seq<EventV>, i: int) -> Parsed<Seq<BlockV>>
    decreases evs.len() - i, 3int,
{
    if i < 0 || i >= evs.len() {
        Parsed { res: Ok(Seq::empty()), next: i }
    } else {
        match evs[i] {
            EventV::Start(tag) => match tag {
                TagV::Heading(l) => {
                    let inner = sp_inlines(evs, i + 1);
                    match inner.res {
                        Err(e) => parsed_fail(inner, e),
                        Ok(ins) => parsed_cons(
                            BlockV::Heading(l, ins),
                            sp_blocks(evs, step(i, inner.next, evs.len() as int)),
                        ),
                    }
                },
                TagV::Paragraph => {
                    let inner = sp_inlines(evs, i + 1);
                    match inner.res {
                        Err(e) => parsed_fail(inner, e),
                        Ok(ins) => parsed_cons(
                            BlockV::Paragraph(ins),
                            sp_blocks(evs, step(i, inner.next, evs.len() as int)),
                        ),
                    }
                },
                TagV::BlockQuote => {
                    let inner = sp_blocks(evs, i + 1);
                    match inner.res {
                        Err(e) => parsed_fail(inner, e),
                        Ok(bs) => parsed_cons(
                            BlockV::Quote(bs),
                            sp_blocks(evs, step(i, inner.next, evs.len() as int)),
                        ),
                    }
                },
                TagV::CodeBlock(kind) => {
                    let inner = sp_text(evs, i + 1);
                    match inner.res {
                        Err(e) => parsed_fail(inner, e),
                        Ok(text) => {
                            let lang = match kind {
                                CodeKindV::Indented => Seq::<char>::empty(),
                                CodeKindV::Fenced(l) => l,
                            };
                            parsed_cons(
                                BlockV::Code(lang, text),
                                sp_blocks(evs, step(i, inner.next, evs.len() as int)),
                            )
                        },
                    }
                },
                TagV::List(first) => {
                    let inner = sp_items(evs, i + 1);
                    match inner.res {
                        Err(e) => parsed_fail(inner, e),
                        Ok(items) => {
                            let t = if first is Some {
                                ListType::Numbered
                            } else {
                                ListType::Plain
                            };
                            parsed_cons(
                                BlockV::List(t, items),
                                sp_blocks(evs, step(i, inner.next, evs.len() as int)),
                            )
                        },
                    }
                },
                _ => parsed_err(ParseErrV::UnexpectedElement(evs[i]), i + 1),
            },
            EventV::End => Parsed { res: Ok(Seq::empty()), next: i + 1 },
            EventV::Text(s) => {
                let inner = sp_tight(evs, i + 1);
                match inner.res {
                    Err(e) => parsed_fail(inner, e),
                    Ok(ins) => parsed_cons(
                        BlockV::Paragraph(seq![InlineV::Plain(s)] + ins),
                        sp_blocks(evs, step(i, inner.next, evs.len() as int)),
                    ),
                }
            },
            EventV::Rule => parsed_cons(BlockV::Rule, sp_blocks(evs, i + 1)),
            _ => parsed_err(ParseErrV::UnexpectedElement(evs[i]), i + 1),
        }
    }
}

/// The items of a list, up to the list's end marker. A rule event between
/// items is skipped; anything else that is not an item start is rejected.
pub open spec fn sp_items(evs: Seq<EventV>, i: int) -> Parsed<Seq<ListItemV>>
    decreases evs.len() - i, 4int,
{
    if i < 0 || i >= evs.len() {
        Parsed { res: Ok(Seq::empty()), next: i }
    } else {
        match evs[i] {
            EventV::Start(tag) => match tag {
                TagV::Item => {
                    if i + 1 >= evs.len() {
                        Parsed { res: Ok(Seq::empty()), next: i + 1 }
                    } else if evs[i + 1] is TaskListMarker {
                        let task = Some(evs[i + 1]->TaskListMarker_0);
                        let inner = sp_blocks(evs, i + 2);
                        match inner.res {
                            Err(e) => parsed_fail(inner, e),
                            Ok(bs) => parsed_cons(
                                ListItemV { task, blocks: bs },
                                sp_items(evs, step(i + 1, inner.next, evs.len() as int)),
                            ),
                        }
                    } else {
                        let inner = sp_blocks(evs, i + 1);
                        match inner.res {
                            Err(e) => parsed_fail(inner, e),
                            Ok(bs) => parsed_cons(
                                ListItemV { task: None, blocks: bs },
                                sp_items(evs, step(i, inner.next, evs.len() as int)),
                            ),
                        }
                    }
                },
                _ => parsed_err(ParseErrV::UnexpectedElement(evs[i]), i + 1),
            },
            EventV::End => Parsed { res: Ok(Seq::empty()), next: i + 1 },
            EventV::Rule => sp_items(evs, i + 1),
            _ => parsed_err(ParseErrV::UnexpectedElement(evs[i]), i + 1),
        }
    }
}

/// Prefixing with nothing changes nothing.
pub proof fn lemma_parsed_prefixed_empty<T>(p: Parsed<Seq<T>>)
    ensures
        parsed_prefixed(Seq::<T>::empty(), p) == p,
{
    match p.res {
        Ok(s) => {
            assert(Seq::<T>::empty() + s =~= s);
        },
        Err(_) => {},
    }
}

/// Two prefixes in a row are one concatenated prefix.
pub proof fn lemma_parsed_prefixed_assoc<T>(a: Seq<T>, b: Seq<T>, p: Parsed<Seq<T>>)
    ensures
        parsed_prefixed(a, parsed_prefixed(b, p)) == parsed_prefixed(a + b, p),
{
    match p.res {
        Ok(s) => {
            assert(a + (b + s) =~= (a + b) + s);
        },
        Err(_) => {},
    }
}

} // verus!
