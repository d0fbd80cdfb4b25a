//! A verified core for a plain-text note tool: a markdown document model,
//! a parser from tokenizer events, a renderer back to text, and task queries.
use vstd::prelude::*;

pub mod events;
pub mod grammar;
pub mod markdown;
pub mod render;
pub mod tasks;
pub mod roundtrip;
pub mod target;
pub mod user;
pub mod utils;
pub mod commands;

pub use markdown::Markdown;

verus! {

broadcast use vstd::seq::axiom_seq_index_decreases, vstd::std_specs::vec::axiom_vec_decreases_to_view;

/// The kind of a list: numbered items (`1.`) or plain bullets (`-`).
#[derive(Debug, Eq, PartialEq, Copy, Clone, Structural)]
pub enum ListType {
    Numbered,
    Plain,
}

/// Inline content of a paragraph or heading.
#[derive(Debug, PartialEq, Eq)]
pub enum Inline {
    Plain(String),
    Emph(Vec<Inline>),
    Strong(Vec<Inline>),
    Code(String),
    Strikethrough(Vec<Inline>),
    Link(String, String),
    Image(String, String),
    Html(String),
    SoftBreak,
    HardBreak,
}

/// One item of a list: an optional task checkbox and nested block content.
#[derive(Debug, PartialEq, Eq)]
pub struct ListItem {
    pub task: Option<bool>,
    pub blocks: Vec<Block>,
}

/// A block-level element of a document.
#[derive(Debug, PartialEq, Eq)]
pub enum Block {
    Paragraph(Vec<Inline>),
    Heading(u32, Vec<Inline>),
    Code(String, String),
    Quote(Vec<Block>),
    List(ListType, Vec<ListItem>),
    Rule,
}

/// A parsed document: an ordered sequence of top-level blocks.
#[derive(Debug, PartialEq, Eq)]
pub struct Nodo {
    pub blocks: Vec<Block>,
}

/// Mathematical counterpart of `Inline`, used in contracts.
#[verifier::ext_equal]
pub enum InlineV {
    Plain(Seq<char>),
    Emph(Seq<InlineV>),
    Strong(Seq<InlineV>),
    Code(Seq<char>),
    Strikethrough(Seq<InlineV>),
    Link(Seq<char>, Seq<char>),
    Image(Seq<char>, Seq<char>),
    Html(Seq<char>),
    SoftBreak,
    HardBreak,
}

/// Mathematical counterpart of `ListItem`.
#[verifier::ext_equal]
pub struct ListItemV {
    pub task: Option<bool>,
    pub blocks: Seq<BlockV>,
}

/// Mathematical counterpart of `Block`.
#[verifier::ext_equal]
pub enum BlockV {
    Paragraph(Seq<InlineV>),
    Heading(u32, Seq<InlineV>),
    Code(Seq<char>, Seq<char>),
    Quote(Seq<BlockV>),
    List(ListType, Seq<ListItemV>),
    Rule,
}

impl Default for Nodo {
    /// The empty document.
    fn default() -> (r: Nodo)
        ensures
            r@ == Seq::<BlockV>::empty(),
    {
        Nodo { blocks: Vec::new() }
    }
}

/// The mathematical value of one inline element.
pub open spec fn inline_view(x: Inline) -> InlineV
    decreases x,
{
    match x {
        Inline::Plain(s) => InlineV::Plain(s@),
        Inline::Emph(v) => InlineV::Emph(inlines_view(v@)),
        Inline::Strong(v) => InlineV::Strong(inlines_view(v@)),
        Inline::Code(s) => InlineV::Code(s@),
        Inline::Strikethrough(v) => InlineV::Strikethrough(inlines_view(v@)),
        Inline::Link(t, u) => InlineV::Link(t@, u@),
        Inline::Image(t, u) => InlineV::Image(t@, u@),
        Inline::Html(s) => InlineV::Html(s@),
        Inline::SoftBreak => InlineV::SoftBreak,
        Inline::HardBreak => InlineV::HardBreak,
    }
}

/// The mathematical value of a sequence of inline elements.
pub open spec fn inlines_view(s: Seq<Inline>) -> Seq<InlineV>
    decreases s,
{
    if s.len() == 0 {
        Seq::empty()
    } else {
        seq![inline_view(s[0])] + inlines_view(s.drop_first())
    }
}

/// The mathematical value of one block.
pub open spec fn block_view(b: Block) -> BlockV
    decreases b,
{
    match b {
        Block::Paragraph(v) => BlockV::Paragraph(inlines_view(v@)),
        Block::Heading(l, v) => BlockV::Heading(l, inlines_view(v@)),
        Block::Code(lang, text) => BlockV::Code(lang@, text@),
        Block::Quote(v) => BlockV::Quote(blocks_view(v@)),
        Block::List(t, v) => BlockV::List(t, items_view(v@)),
        Block::Rule => BlockV::Rule,
    }
}

/// The mathematical value of a sequence of blocks.
pub open spec fn blocks_view(s: Seq<Block>) -> Seq<BlockV>
    decreases s,
{
    if s.len() == 0 {
        Seq::empty()
    } else {
        seq![block_view(s[0])] + blocks_view(s.drop_first())
    }
}

/// The mathematical value of one list item.
pub open spec fn item_view(x: ListItem) -> ListItemV
    decreases x,
{
    ListItemV { task: x.task, blocks: blocks_view(x.blocks@) }
}

/// The mathematical value of a sequence of list items.
pub open spec fn items_view(s: Seq<ListItem>) -> Seq<ListItemV>
    decreases s,
{
    if s.len() == 0 {
        Seq::empty()
    } else {
        seq![item_view(s[0])] + items_view(s.drop_first())
    }
}

impl View for Inline {
    type V = InlineV;

    open spec fn view(&self) -> InlineV {
        inline_view(*self)
    }
}

impl View for Block {
    type V = BlockV;

    open spec fn view(&self) -> BlockV {
        block_view(*self)
    }
}

impl View for ListItem {
    type V = ListItemV;

    open spec fn view(&self) -> ListItemV {
        item_view(*self)
    }
}

impl View for Nodo {
    type V = Seq<BlockV>;

    open spec fn view(&self) -> Seq<BlockV> {
        blocks_view(self.blocks@)
    }
}

/// Appending one inline on the right extends the view by its value.
pub proof fn lemma_inlines_view_push(s: Seq<Inline>, x: Inline)
    ensures
        inlines_view(s.push(x)) == inlines_view(s) + seq![inline_view(x)],
    decreases s.len(),
{
    if s.len() == 0 {
        assert(s.push(x).drop_first() =~= Seq::<Inline>::empty());
        assert(s.push(x)[0] == x);
        assert(inlines_view(Seq::<Inline>::empty()) == Seq::<InlineV>::empty());
        assert(inlines_view(s.push(x)) =~= inlines_view(s) + seq![inline_view(x)]);
    } else {
        lemma_inlines_view_push(s.drop_first(), x);
        assert(s.push(x).drop_first() =~= s.drop_first().push(x));
        assert(inlines_view(s.push(x)) =~= inlines_view(s) + seq![inline_view(x)]);
    }
}

/// Appending one block on the right extends the view by its value.
pub proof fn lemma_blocks_view_push(s: Seq<Block>, x: Block)
    ensures
        blocks_view(s.push(x)) == blocks_view(s) + seq![block_view(x)],
    decreases s.len(),
{
    if s.len() == 0 {
        assert(s.push(x).drop_first() =~= Seq::<Block>::empty());
        assert(s.push(x)[0] == x);
        assert(blocks_view(Seq::<Block>::empty()) == Seq::<BlockV>::empty());
        assert(blocks_view(s.push(x)) =~= blocks_view(s) + seq![block_view(x)]);
    } else {
        lemma_blocks_view_push(s.drop_first(), x);
        assert(s.push(x).drop_first() =~= s.drop_first().push(x));
        assert(blocks_view(s.push(x)) =~= blocks_view(s) + seq![block_view(x)]);
    }
}

/// Appending one list item on the right extends the view by its value.
pub proof fn lemma_items_view_push(s: Seq<ListItem>, x: ListItem)
    ensures
        items_view(s.push(x)) == items_view(s) + seq![item_view(x)],
    decreases s.len(),
{
    if s.len() == 0 {
        assert(s.push(x).drop_first() =~= Seq::<ListItem>::empty());
        assert(s.push(x)[0] == x);
        assert(items_view(Seq::<ListItem>::empty()) == Seq::<ListItemV>::empty());
        assert(items_view(s.push(x)) =~= items_view(s) + seq![item_view(x)]);
    } else {
        lemma_items_view_push(s.drop_first(), x);
        assert(s.push(x).drop_first() =~= s.drop_first().push(x));
        assert(items_view(s.push(x)) =~= items_view(s) + seq![item_view(x)]);
    }
}

/// The view of a sequence has the same length and element-wise values.
pub proof fn lemma_inlines_view_index(s: Seq<Inline>)
    ensures
        inlines_view(s).len() == s.len(),
        forall|k: int| 0 <= k < s.len() ==> inlines_view(s)[k] == inline_view(#[trigger] s[k]),
    decreases s.len(),
{
    if s.len() > 0 {
        lemma_inlines_view_index(s.drop_first());
        assert forall|k: int| 0 <= k < s.len() implies inlines_view(s)[k] == inline_view(
            #[trigger] s[k],
        ) by {
            if k > 0 {
                assert(s.drop_first()[k - 1] == s[k]);
            }
        }
    }
}

/// The view of a sequence has the same length and element-wise values.
pub proof fn lemma_blocks_view_index(s: Seq<Block>)
    ensures
        blocks_view(s).len() == s.len(),
        forall|k: int| 0 <= k < s.len() ==> blocks_view(s)[k] == block_view(#[trigger] s[k]),
    decreases s.len(),
{
    if s.len() > 0 {
        lemma_blocks_view_index(s.drop_first());
        assert forall|k: int| 0 <= k < s.len() implies blocks_view(s)[k] == block_view(
            #[trigger] s[k],
        ) by {
            if k > 0 {
                assert(s.drop_first()[k - 1] == s[k]);
            }
        }
    }
}

/// The view of a sequence has the same length and element-wise values.
pub proof fn lemma_items_view_index(s: Seq<ListItem>)
    ensures
        items_view(s).len() == s.len(),
        forall|k: int| 0 <= k < s.len() ==> items_view(s)[k] == item_view(#[trigger] s[k]),
    decreases s.len(),
{
    if s.len() > 0 {
        lemma_items_view_index(s.drop_first());
        assert forall|k: int| 0 <= k < s.len() implies items_view(s)[k] == item_view(
            #[trigger] s[k],
        ) by {
            if k > 0 {
                assert(s.drop_first()[k - 1] == s[k]);
            }
        }
    }
}

/// Reading a document out of a text format.
pub trait Parse {
    type ParseError;

    /// Parses a document from a string; errors come from input outside the
    /// format's supported dialect.
    fn parse(s: &str) -> Result<Nodo, Self::ParseError>;
}

/// Writing a document into a text format.
pub trait Render {
    type RenderError;

    /// Renders a document to text; errors come from the format's limits.
    fn render(n: &Nodo) -> Result<String, Self::RenderError>;
}

} // verus!
