//! The round-trip law: the parser inverts the canonical flattening of a
//! document into its event stream. `block_events_from` writes out, for any
//! document value, exactly the events that the tokenizer yields for it in the
//! supported dialect; `lemma_parse_of_flattened` proves that the grammar
//! reads that stream back to the very same document, whatever the nesting.
use vstd::prelude::*;
use crate::events::{events_of, CodeKindV, EventV, TagV};
use crate::grammar::{
    sp_blocks, sp_inline_ref, sp_inline_strike, sp_inline_wrapped, sp_inlines, sp_items, sp_text,
    step, Parsed,
};
use crate::{BlockV, InlineV, ListItemV, ListType};

verus! {

/// The events of one inline element.
pub open spec fn inline_events(x: InlineV) -> Seq<EventV>
    decreases x, 0int,
{
    match x {
        InlineV::Plain(s) => seq![EventV::Text(s)],
        InlineV::Emph(ins) => seq![EventV::Start(TagV::Emphasis)] + inline_events_from(ins, 0)
            + seq![EventV::End],
        InlineV::Strong(ins) => seq![EventV::Start(TagV::Strong)] + inline_events_from(ins, 0)
            + seq![EventV::End],
        InlineV::Strikethrough(ins) => seq![EventV::Start(TagV::Strikethrough)]
            + inline_events_from(ins, 0) + seq![EventV::End],
        InlineV::Code(s) => seq![EventV::Code(s)],
        InlineV::Html(s) => seq![EventV::Html(s)],
        InlineV::Link(t, u) => seq![EventV::Start(TagV::Link(t, u)), EventV::End],
        InlineV::Image(t, u) => seq![EventV::Start(TagV::Image(t, u)), EventV::End],
        InlineV::SoftBreak => seq![EventV::SoftBreak],
        InlineV::HardBreak => seq![EventV::HardBreak],
    }
}

/// The events of the inline elements from position `k` on.
pub open spec fn inline_events_from(s: Seq<InlineV>, k: int) -> Seq<EventV>
    decreases s, s.len() - k,
{
    if k < 0 || k >= s.len() {
        Seq::empty()
    } else {
        inline_events(s[k]) + inline_events_from(s, k + 1)
    }
}

/// The task-marker event of an item, if it is a task.
pub open spec fn task_events(task: Option<bool>) -> Seq<EventV> {
    match task {
        Some(b) => seq![EventV::TaskListMarker(b)],
        None => Seq::empty(),
    }
}

/// The events of one block.
pub open spec fn block_events(b: BlockV) -> Seq<EventV>
    decreases b, 0int,
{
    match b {
        BlockV::Paragraph(ins) => seq![EventV::Start(TagV::Paragraph)] + inline_events_from(ins, 0)
            + seq![EventV::End],
        BlockV::Heading(l, ins) => seq![EventV::Start(TagV::Heading(l))] + inline_events_from(
            ins,
            0,
        ) + seq![EventV::End],
        BlockV::Code(lang, text) => seq![
            EventV::Start(TagV::CodeBlock(CodeKindV::Fenced(lang))),
            EventV::Text(text),
            EventV::End,
        ],
        BlockV::Quote(bs) => seq![EventV::Start(TagV::BlockQuote)] + block_events_from(bs, 0)
            + seq![EventV::End],
        BlockV::List(t, items) => seq![
            EventV::Start(
                TagV::List(
                    match t {
                        ListType::Numbered => Some(1u64),
                        ListType::Plain => None,
                    },
                ),
            ),
        ] + item_events_from(items, 0) + seq![EventV::End],
        BlockV::Rule => seq![EventV::Rule],
    }
}

/// The events of the blocks from position `k` on.
pub open spec fn block_events_from(bs: Seq<BlockV>, k: int) -> Seq<EventV>
    decreases bs, bs.len() - k,
{
    if k < 0 || k >= bs.len() {
        Seq::empty()
    } else {
        block_events(bs[k]) + block_events_from(bs, k + 1)
    }
}

/// The events of the list items from position `k` on.
pub open spec fn item_events_from(items: Seq<ListItemV>, k: int) -> Seq<EventV>
    decreases items, items.len() - k,
{
    if k < 0 || k >= items.len() {
        Seq::empty()
    } else {
        seq![EventV::Start(TagV::Item)] + task_events(items[k].task) + block_events_from(
            items[k].blocks,
            0,
        ) + seq![EventV::End] + item_events_from(items, k + 1)
    }
}

/// Dropping a known prefix of a suffix of the stream leaves the rest.
pub proof fn lemma_suffix_shift(
    evs: Seq<EventV>,
    i: int,
    m: int,
    pre: Seq<EventV>,
    tail: Seq<EventV>,
)
    requires
        0 <= i <= evs.len(),
        m == pre.len(),
        evs.subrange(i, evs.len() as int) == pre + tail,
    ensures
        i + m <= evs.len(),
        evs.subrange(i + m, evs.len() as int) == tail,
{
    let n = evs.len() as int;
    assert(evs.subrange(i, n).len() == n - i);
    assert forall|q: int| 0 <= q < tail.len() implies evs.subrange(i + m, n)[q] == tail[q] by {
        assert(evs.subrange(i, n)[m + q] == (pre + tail)[m + q]);
        assert(evs.subrange(i, n)[m + q] == evs[i + m + q]);
        assert(evs.subrange(i + m, n)[q] == evs[i + m + q]);
    }
    assert(evs.subrange(i + m, n) =~= tail);
}

/// Reading inline content at the front of its own event stream, bounded by
/// an end marker, gives back exactly that content.
pub proof fn lemma_inlines_parse(
    evs: Seq<EventV>,
    i: int,
    ins: Seq<InlineV>,
    k: int,
    rest: Seq<EventV>,
)
    requires
        0 <= i <= evs.len(),
        0 <= k <= ins.len(),
        evs.subrange(i, evs.len() as int) == inline_events_from(ins, k) + seq![EventV::End] + rest,
    ensures
        sp_inlines(evs, i) == (Parsed::<Seq<InlineV>> {
            res: Ok(ins.subrange(k, ins.len() as int)),
            next: i + inline_events_from(ins, k).len() + 1,
        }),
    decreases inline_events_from(ins, k).len(),
{
    let n = evs.len() as int;
    let sub = evs.subrange(i, n);
    let f = inline_events_from(ins, k);
    assert(sub.len() == n - i);
    assert(n - i == f.len() + 1 + rest.len());
    if k == ins.len() {
        assert(evs[i] == sub[0]);
        assert(sub[0] == EventV::End);
        assert(ins.subrange(k, ins.len() as int) =~= Seq::<InlineV>::empty());
    } else {
        let x = ins[k];
        let fx = inline_events(x);
        let f1 = inline_events_from(ins, k + 1);
        let tail = f1 + seq![EventV::End] + rest;
        assert(f == fx + f1);
        assert(evs[i] == sub[0]);
        assert(ins.subrange(k, ins.len() as int) =~= seq![x] + ins.subrange(
            k + 1,
            ins.len() as int,
        ));
        match x {
            InlineV::Plain(s) => {
                assert(sub[0] == EventV::Text(s));
                assert(sub =~= fx + tail);
                lemma_suffix_shift(evs, i, 1, fx, tail);
                lemma_inlines_parse(evs, i + 1, ins, k + 1, rest);
            },
            InlineV::Code(s) => {
                assert(sub[0] == EventV::Code(s));
                assert(sub =~= fx + tail);
                lemma_suffix_shift(evs, i, 1, fx, tail);
                lemma_inlines_parse(evs, i + 1, ins, k + 1, rest);
            },
            InlineV::Html(s) => {
                assert(sub[0] == EventV::Html(s));
                assert(sub =~= fx + tail);
                lemma_suffix_shift(evs, i, 1, fx, tail);
                lemma_inlines_parse(evs, i + 1, ins, k + 1, rest);
            },
            InlineV::SoftBreak => {
                assert(sub[0] == EventV::SoftBreak);
                assert(sub =~= fx + tail);
                lemma_suffix_shift(evs, i, 1, fx, tail);
                lemma_inlines_parse(evs, i + 1, ins, k + 1, rest);
            },
            InlineV::HardBreak => {
                assert(sub[0] == EventV::HardBreak);
                assert(sub =~= fx + tail);
                lemma_suffix_shift(evs, i, 1, fx, tail);
                lemma_inlines_parse(evs, i + 1, ins, k + 1, rest);
            },
            InlineV::Emph(inner) => {
                assert(sub[0] == EventV::Start(TagV::Emphasis));
                let fi = inline_events_from(inner, 0);
                let head = seq![EventV::Start(TagV::Emphasis)];
                let inner_tail = fi + seq![EventV::End] + tail;
                assert(sub =~= head + inner_tail);
                lemma_suffix_shift(evs, i, 1, head, inner_tail);
                lemma_inlines_parse(evs, i + 1, inner, 0, tail);
                let j = i + 1 + fi.len() + 1;
                assert(inner.subrange(0, inner.len() as int) =~= inner);
                assert((fi + seq![EventV::End]) + tail =~= inner_tail);
                lemma_suffix_shift(evs, i + 1, fi.len() as int + 1, fi + seq![EventV::End], tail);
                lemma_inlines_parse(evs, j, ins, k + 1, rest);
                assert(step(i, j, n) == j);
                assert(sp_inlines(evs, i) == sp_inline_wrapped(evs, i, true, false));
            },
            InlineV::Strong(inner) => {
                assert(sub[0] == EventV::Start(TagV::Strong));
                let fi = inline_events_from(inner, 0);
                let head = seq![EventV::Start(TagV::Strong)];
                let inner_tail = fi + seq![EventV::End] + tail;
                assert(sub =~= head + inner_tail);
                lemma_suffix_shift(evs, i, 1, head, inner_tail);
                lemma_inlines_parse(evs, i + 1, inner, 0, tail);
                let j = i + 1 + fi.len() + 1;
                assert(inner.subrange(0, inner.len() as int) =~= inner);
                assert((fi + seq![EventV::End]) + tail =~= inner_tail);
                lemma_suffix_shift(evs, i + 1, fi.len() as int + 1, fi + seq![EventV::End], tail);
                lemma_inlines_parse(evs, j, ins, k + 1, rest);
                assert(step(i, j, n) == j);
                assert(sp_inlines(evs, i) == sp_inline_wrapped(evs, i, true, true));
            },
            InlineV::Strikethrough(inner) => {
                assert(sub[0] == EventV::Start(TagV::Strikethrough));
                let fi = inline_events_from(inner, 0);
                let head = seq![EventV::Start(TagV::Strikethrough)];
                let inner_tail = fi + seq![EventV::End] + tail;
                assert(sub =~= head + inner_tail);
                lemma_suffix_shift(evs, i, 1, head, inner_tail);
                lemma_inlines_parse(evs, i + 1, inner, 0, tail);
                let j = i + 1 + fi.len() + 1;
                assert(inner.subrange(0, inner.len() as int) =~= inner);
                assert((fi + seq![EventV::End]) + tail =~= inner_tail);
                lemma_suffix_shift(evs, i + 1, fi.len() as int + 1, fi + seq![EventV::End], tail);
                lemma_inlines_parse(evs, j, ins, k + 1, rest);
                assert(step(i, j, n) == j);
                assert(sp_inlines(evs, i) == sp_inline_strike(evs, i, true));
            },
            InlineV::Link(t, u) => {
                assert(sub[0] == EventV::Start(TagV::Link(t, u)));
                assert(evs[i + 1] == sub[1]);
                assert(sub[1] == EventV::End);
                assert(sub =~= fx + tail);
                lemma_suffix_shift(evs, i, 2, fx, tail);
                lemma_inlines_parse(evs, i + 2, ins, k + 1, rest);
                assert(sp_inlines(evs, i) == sp_inline_ref(evs, i, true, InlineV::Link(t, u)));
            },
            InlineV::Image(t, u) => {
                assert(sub[0] == EventV::Start(TagV::Image(t, u)));
                assert(evs[i + 1] == sub[1]);
                assert(sub[1] == EventV::End);
                assert(sub =~= fx + tail);
                lemma_suffix_shift(evs, i, 2, fx, tail);
                lemma_inlines_parse(evs, i + 2, ins, k + 1, rest);
                assert(sp_inlines(evs, i) == sp_inline_ref(evs, i, true, InlineV::Image(t, u)));
            },
        }
    }
}

/// The event stream of a non-empty block sequence opens with a start marker
/// or a rule event, never with a task marker.
pub proof fn lemma_block_events_first(bs: Seq<BlockV>)
    requires
        bs.len() > 0,
    ensures
        block_events_from(bs, 0).len() > 0,
        block_events_from(bs, 0)[0] is Start || block_events_from(bs, 0)[0] is Rule,
{
    let fb = block_events(bs[0]);
    assert(block_events_from(bs, 0) == fb + block_events_from(bs, 1));
    match bs[0] {
        BlockV::Paragraph(ins) => {
            assert(fb[0] == EventV::Start(TagV::Paragraph));
        },
        BlockV::Heading(l, ins) => {
            assert(fb[0] == EventV::Start(TagV::Heading(l)));
        },
        BlockV::Code(lang, text) => {
            assert(fb[0] == EventV::Start(TagV::CodeBlock(CodeKindV::Fenced(lang))));
        },
        BlockV::Quote(inner) => {
            assert(fb[0] == EventV::Start(TagV::BlockQuote));
        },
        BlockV::List(t, items) => {
            assert(fb[0] is Start);
        },
        BlockV::Rule => {
            assert(fb[0] == EventV::Rule);
        },
    }
    assert(block_events_from(bs, 0)[0] == fb[0]);
}

/// Reading a block sequence at the front of its own event stream gives back
/// exactly that sequence. With `closed`, an end marker bounds the blocks and
/// is consumed; without it, the blocks run exactly to the end of the stream.
#[verifier::rlimit(100)]
pub proof fn lemma_blocks_parse(
    evs: Seq<EventV>,
    i: int,
    bs: Seq<BlockV>,
    k: int,
    closed: bool,
    rest: Seq<EventV>,
)
    requires
        0 <= i <= evs.len(),
        0 <= k <= bs.len(),
        closed ==> evs.subrange(i, evs.len() as int) == block_events_from(bs, k) + seq![
            EventV::End,
        ] + rest,
        !closed ==> evs.subrange(i, evs.len() as int) == block_events_from(bs, k) && rest
            == Seq::<EventV>::empty(),
    ensures
        sp_blocks(evs, i) == (Parsed::<Seq<BlockV>> {
            res: Ok(bs.subrange(k, bs.len() as int)),
            next: if closed {
                i + block_events_from(bs, k).len() + 1
            } else {
                evs.len() as int
            },
        }),
    decreases block_events_from(bs, k).len(),
{
    let n = evs.len() as int;
    let sub = evs.subrange(i, n);
    let f = block_events_from(bs, k);
    let ghost term: Seq<EventV> = if closed {
        seq![EventV::End]
    } else {
        Seq::empty()
    };
    assert(sub == f + term + rest) by {
        if closed {
        } else {
            assert(sub =~= f + term + rest);
        }
    }
    assert(sub.len() == n - i);
    assert(n - i == f.len() + term.len() + rest.len());
    if k == bs.len() {
        assert(bs.subrange(k, bs.len() as int) =~= Seq::<BlockV>::empty());
        if closed {
            assert(evs[i] == sub[0]);
            assert(sub[0] == EventV::End);
        } else {
            assert(i == n);
        }
    } else {
        let x = bs[k];
        let fx = block_events(x);
        let f1 = block_events_from(bs, k + 1);
        let tail = f1 + term + rest;
        assert(f == fx + f1);
        assert(evs[i] == sub[0]);
        assert(bs.subrange(k, bs.len() as int) =~= seq![x] + bs.subrange(k + 1, bs.len() as int));
        match x {
            BlockV::Paragraph(ins) => {
                assert(sub[0] == EventV::Start(TagV::Paragraph));
                let fi = inline_events_from(ins, 0);
                let head = seq![EventV::Start(TagV::Paragraph)];
                let inner_tail = fi + seq![EventV::End] + tail;
                assert(sub =~= head + inner_tail);
                lemma_suffix_shift(evs, i, 1, head, inner_tail);
                lemma_inlines_parse(evs, i + 1, ins, 0, tail);
                let j = i + 1 + fi.len() + 1;
                assert(ins.subrange(0, ins.len() as int) =~= ins);
                assert((fi + seq![EventV::End]) + tail =~= inner_tail);
                lemma_suffix_shift(evs, i + 1, fi.len() as int + 1, fi + seq![EventV::End], tail);
                lemma_blocks_parse(evs, j, bs, k + 1, closed, rest);
                assert(step(i, j, n) == j);
            },
            BlockV::Heading(l, ins) => {
                assert(sub[0] == EventV::Start(TagV::Heading(l)));
                let fi = inline_events_from(ins, 0);
                let head = seq![EventV::Start(TagV::Heading(l))];
                let inner_tail = fi + seq![EventV::End] + tail;
                assert(sub =~= head + inner_tail);
                lemma_suffix_shift(evs, i, 1, head, inner_tail);
                lemma_inlines_parse(evs, i + 1, ins, 0, tail);
                let j = i + 1 + fi.len() + 1;
                assert(ins.subrange(0, ins.len() as int) =~= ins);
                assert((fi + seq![EventV::End]) + tail =~= inner_tail);
                lemma_suffix_shift(evs, i + 1, fi.len() as int + 1, fi + seq![EventV::End], tail);
                lemma_blocks_parse(evs, j, bs, k + 1, closed, rest);
                assert(step(i, j, n) == j);
            },
            BlockV::Code(lang, text) => {
                assert(sub[0] == EventV::Start(TagV::CodeBlock(CodeKindV::Fenced(lang))));
                assert(evs[i + 1] == sub[1]);
                assert(sub[1] == EventV::Text(text));
                assert(evs[i + 2] == sub[2]);
                assert(sub[2] == EventV::End);
                assert(sub =~= fx + tail);
                lemma_suffix_shift(evs, i, 3, fx, tail);
                lemma_blocks_parse(evs, i + 3, bs, k + 1, closed, rest);
                assert(sp_text(evs, i + 1) == (Parsed::<Seq<char>> {
                    res: Ok(text),
                    next: i + 3,
                }));
                assert(step(i, i + 3, n) == i + 3);
            },
            BlockV::Quote(inner) => {
                assert(sub[0] == EventV::Start(TagV::BlockQuote));
                let fb = block_events_from(inner, 0);
                let head = seq![EventV::Start(TagV::BlockQuote)];
                let inner_tail = fb + seq![EventV::End] + tail;
                assert(sub =~= head + inner_tail);
                lemma_suffix_shift(evs, i, 1, head, inner_tail);
                lemma_blocks_parse(evs, i + 1, inner, 0, true, tail);
                let j = i + 1 + fb.len() + 1;
                assert(inner.subrange(0, inner.len() as int) =~= inner);
                assert((fb + seq![EventV::End]) + tail =~= inner_tail);
                lemma_suffix_shift(evs, i + 1, fb.len() as int + 1, fb + seq![EventV::End], tail);
                lemma_blocks_parse(evs, j, bs, k + 1, closed, rest);
                assert(step(i, j, n) == j);
            },
            BlockV::List(t, items) => {
                let opt: Option<u64> = match t {
                    ListType::Numbered => Some(1u64),
                    ListType::Plain => None,
                };
                assert(sub[0] == EventV::Start(TagV::List(opt)));
                let fit = item_events_from(items, 0);
                let head = seq![EventV::Start(TagV::List(opt))];
                let inner_tail = fit + seq![EventV::End] + tail;
                assert(sub =~= head + inner_tail);
                lemma_suffix_shift(evs, i, 1, head, inner_tail);
                lemma_items_parse(evs, i + 1, items, 0, tail);
                let j = i + 1 + fit.len() + 1;
                assert(items.subrange(0, items.len() as int) =~= items);
                assert((fit + seq![EventV::End]) + tail =~= inner_tail);
                lemma_suffix_shift(evs, i + 1, fit.len() as int + 1, fit + seq![EventV::End], tail);
                lemma_blocks_parse(evs, j, bs, k + 1, closed, rest);
                assert(step(i, j, n) == j);
                match t {
                    ListType::Numbered => {
                        assert(opt is Some);
                    },
                    ListType::Plain => {
                        assert(opt is None);
                    },
                }
            },
            BlockV::Rule => {
                assert(sub[0] == EventV::Rule);
                assert(sub =~= fx + tail);
                lemma_suffix_shift(evs, i, 1, fx, tail);
                lemma_blocks_parse(evs, i + 1, bs, k + 1, closed, rest);
            },
        }
    }
}

/// Reading list items at the front of their own event stream, bounded by the
/// list's end marker, gives back exactly those items.
pub proof fn lemma_items_parse(
    evs: Seq<EventV>,
    i: int,
    items: Seq<ListItemV>,
    k: int,
    rest: Seq<EventV>,
)
    requires
        0 <= i <= evs.len(),
        0 <= k <= items.len(),
        evs.subrange(i, evs.len() as int) == item_events_from(items, k) + seq![EventV::End] + rest,
    ensures
        sp_items(evs, i) == (Parsed::<Seq<ListItemV>> {
            res: Ok(items.subrange(k, items.len() as int)),
            next: i + item_events_from(items, k).len() + 1,
        }),
    decreases item_events_from(items, k).len(),
{
    let n = evs.len() as int;
    let sub = evs.subrange(i, n);
    let f = item_events_from(items, k);
    assert(sub.len() == n - i);
    assert(n - i == f.len() + 1 + rest.len());
    if k == items.len() {
        assert(evs[i] == sub[0]);
        assert(sub[0] == EventV::End);
        assert(items.subrange(k, items.len() as int) =~= Seq::<ListItemV>::empty());
    } else {
        let x = items[k];
        let fb = block_events_from(x.blocks, 0);
        let fx = seq![EventV::Start(TagV::Item)] + task_events(x.task) + fb + seq![EventV::End];
        let f1 = item_events_from(items, k + 1);
        let tail = f1 + seq![EventV::End] + rest;
        assert(f == fx + f1);
        assert(evs[i] == sub[0]);
        assert(sub[0] == EventV::Start(TagV::Item));
        assert(items.subrange(k, items.len() as int) =~= seq![x] + items.subrange(
            k + 1,
            items.len() as int,
        ));
        match x.task {
            Some(b) => {
                assert(evs[i + 1] == sub[1]);
                assert(sub[1] == EventV::TaskListMarker(b));
                let head = seq![EventV::Start(TagV::Item), EventV::TaskListMarker(b)];
                let inner_tail = fb + seq![EventV::End] + tail;
                assert(sub =~= head + inner_tail);
                lemma_suffix_shift(evs, i, 2, head, inner_tail);
                lemma_blocks_parse(evs, i + 2, x.blocks, 0, true, tail);
                let j = i + 2 + fb.len() + 1;
                assert(x.blocks.subrange(0, x.blocks.len() as int) =~= x.blocks);
                assert((fb + seq![EventV::End]) + tail =~= inner_tail);
                lemma_suffix_shift(evs, i + 2, fb.len() as int + 1, fb + seq![EventV::End], tail);
                lemma_items_parse(evs, j, items, k + 1, rest);
                assert(step(i + 1, j, n) == j);
                assert(x =~= (ListItemV { task: Some(b), blocks: x.blocks }));
            },
            None => {
                let head = seq![EventV::Start(TagV::Item)];
                let inner_tail = fb + seq![EventV::End] + tail;
                assert(sub =~= head + inner_tail);
                lemma_suffix_shift(evs, i, 1, head, inner_tail);
                assert(evs[i + 1] == sub[1]);
                if x.blocks.len() == 0 {
                    assert(sub[1] == EventV::End);
                    assert(!(evs[i + 1] is TaskListMarker));
                } else {
                    lemma_block_events_first(x.blocks);
                    assert(evs.subrange(i + 1, n) == inner_tail);
                    assert(evs[i + 1] == evs.subrange(i + 1, n)[0]);
                    assert(inner_tail[0] == fb[0]);
                    assert(!(evs[i + 1] is TaskListMarker));
                }
                lemma_blocks_parse(evs, i + 1, x.blocks, 0, true, tail);
                let j = i + 1 + fb.len() + 1;
                assert(x.blocks.subrange(0, x.blocks.len() as int) =~= x.blocks);
                assert((fb + seq![EventV::End]) + tail =~= inner_tail);
                lemma_suffix_shift(evs, i + 1, fb.len() as int + 1, fb + seq![EventV::End], tail);
                lemma_items_parse(evs, j, items, k + 1, rest);
                assert(step(i, j, n) == j);
                assert(x =~= (ListItemV { task: None, blocks: x.blocks }));
            },
        }
    }
}

/// The round-trip law at the heart of the library: for every document value,
/// parsing the document's own event stream yields exactly that document,
/// whatever the nesting depth of its quotes, lists, and emphasis.
pub proof fn lemma_parse_of_flattened(d: Seq<BlockV>)
    ensures
        sp_blocks(block_events_from(d, 0), 0) == (Parsed::<Seq<BlockV>> {
            res: Ok(d),
            next: block_events_from(d, 0).len() as int,
        }),
{
    let evs = block_events_from(d, 0);
    assert(evs.subrange(0, evs.len() as int) =~= evs);
    lemma_blocks_parse(evs, 0, d, 0, false, Seq::empty());
    assert(d.subrange(0, d.len() as int) =~= d);
}

/// Rejection is immediate and total: a stream that opens with a construct
/// outside the supported dialect parses to an `UnexpectedElement` error and
/// nothing else. The grammar applies the same rule wherever a block may
/// start, as `sp_blocks` shows case by case.
pub proof fn lemma_unsupported_rejected(evs: Seq<EventV>)
    requires
        evs.len() > 0,
        evs[0] == EventV::Start(TagV::Unsupported),
    ensures
        sp_blocks(evs, 0).res == Err::<Seq<crate::BlockV>, crate::grammar::ParseErrV>(
            crate::grammar::ParseErrV::UnexpectedElement(evs[0]),
        ),
{
}

/// The same law, read at the parser's front door: whenever a text tokenizes
/// to the canonical event stream of a document, parsing that text is owed to
/// succeed with exactly that document.
pub proof fn lemma_parse_returns_flattened(s: Seq<char>, d: Seq<crate::BlockV>)
    requires
        events_of(s) == block_events_from(d, 0),
    ensures
        sp_blocks(events_of(s), 0).res == Ok::<Seq<crate::BlockV>, crate::grammar::ParseErrV>(d),
{
    lemma_parse_of_flattened(d);
}

} // verus!
