//! The renderer: walks a document and reproduces its text, a structural
//! mirror of the parser. The mathematical form (`rendered_*`) defines the
//! exact output; the executable functions are proved to produce it.
use vstd::prelude::*;
use crate::markdown::Markdown;
use crate::{Block, BlockV, Inline, InlineV, ListItem, ListItemV, ListType, Nodo};
use crate::{blocks_view, inlines_view, items_view};
use crate::{lemma_blocks_view_index, lemma_inlines_view_index, lemma_items_view_index};

verus! {

/// The character of one decimal digit.
pub open spec fn digit_char(d: nat) -> char {
    if d == 0 {
        '0'
    } else if d == 1 {
        '1'
    } else if d == 2 {
        '2'
    } else if d == 3 {
        '3'
    } else if d == 4 {
        '4'
    } else if d == 5 {
        '5'
    } else if d == 6 {
        '6'
    } else if d == 7 {
        '7'
    } else if d == 8 {
        '8'
    } else {
        '9'
    }
}

/// The decimal notation of a number, most significant digit first.
pub open spec fn dec_str(n: nat) -> Seq<char>
    decreases n,
{
    if n < 10 {
        seq![digit_char(n)]
    } else {
        dec_str(n / 10).push(digit_char(n % 10))
    }
}

/// `l` repetitions of the heading marker.
pub open spec fn hashes(l: nat) -> Seq<char>
    decreases l,
{
    if l == 0 {
        Seq::empty()
    } else {
        hashes((l - 1) as nat).push('#')
    }
}

/// The blank-line separator between blocks: an empty line, then the prefix.
pub open spec fn block_sep(prefix: Seq<char>) -> Seq<char> {
    seq!['\n', '\n'] + prefix
}

/// The blank line after a block is left out when the block is a list that
/// directly follows a paragraph at a non-root prefix, keeping tight list
/// formatting intact.
pub open spec fn sep_skipped(bs: Seq<BlockV>, k: int, prefix: Seq<char>) -> bool {
    prefix.len() > 0 && bs[k] is List && k >= 1 && bs[k - 1] is Paragraph
}

/// The text of one inline element. Nested emphasis content is rendered with
/// an empty prefix, as the dialect keeps emphasis within one line.
pub open spec fn rendered_inline(x: InlineV, prefix: Seq<char>) -> Seq<char>
    decreases x, 0int,
{
    match x {
        InlineV::Plain(s) => s,
        InlineV::Html(s) => s,
        InlineV::Emph(ins) => seq!['*'] + rendered_inlines_from(ins, 0, Seq::empty())
            + seq!['*'],
        InlineV::Strong(ins) => seq!['*', '*'] + rendered_inlines_from(ins, 0, Seq::empty())
            + seq!['*', '*'],
        InlineV::Strikethrough(ins) => seq!['~', '~'] + rendered_inlines_from(
            ins,
            0,
            Seq::empty(),
        ) + seq!['~', '~'],
        InlineV::Code(s) => seq!['`'] + s + seq!['`'],
        InlineV::Link(t, u) => seq!['['] + t + seq![']', '('] + u + seq![')'],
        InlineV::Image(t, u) => seq!['!', '['] + t + seq![']', '('] + u + seq![')'],
        InlineV::SoftBreak => seq!['\n'] + prefix,
        InlineV::HardBreak => seq!['\n', '\n'] + prefix,
    }
}

/// The text of the inline elements from position `k` on.
pub open spec fn rendered_inlines_from(s: Seq<InlineV>, k: int, prefix: Seq<char>) -> Seq<char>
    decreases s, s.len() - k,
{
    if k < 0 || k >= s.len() {
        Seq::empty()
    } else {
        rendered_inline(s[k], prefix) + rendered_inlines_from(s, k + 1, prefix)
    }
}

/// The checkbox of a task item, or nothing.
pub open spec fn rendered_task(task: Option<bool>) -> Seq<char> {
    match task {
        Some(true) => seq!['[', 'x', ']', ' '],
        Some(false) => seq!['[', ' ', ']', ' '],
        None => Seq::empty(),
    }
}

/// The marker of the item at position `k`: the prefix on every item line but
/// the first (the first continues the line that the list started on), then a
/// one-based ordinal or a bullet.
pub open spec fn rendered_marker(t: ListType, k: int, prefix: Seq<char>) -> Seq<char> {
    let lead = if k == 0 {
        Seq::<char>::empty()
    } else {
        prefix
    };
    match t {
        ListType::Numbered => lead + dec_str((k + 1) as nat) + seq!['.', ' '],
        ListType::Plain => lead + seq!['-', ' '],
    }
}

/// The text of the list items from position `k` on: marker, optional task
/// checkbox, the item's blocks one indent unit deeper, and a line break
/// between neighbouring items.
pub open spec fn rendered_items_from(
    t: ListType,
    items: Seq<ListItemV>,
    k: int,
    prefix: Seq<char>,
) -> Seq<char>
    decreases items, items.len() - k,
{
    if k < 0 || k >= items.len() {
        Seq::empty()
    } else {
        rendered_marker(t, k, prefix) + rendered_task(items[k].task) + rendered_blocks_from(
            items[k].blocks,
            0,
            prefix + seq![' ', ' ', ' ', ' '],
        ) + (if k + 1 < items.len() {
            seq!['\n']
        } else {
            Seq::empty()
        }) + rendered_items_from(t, items, k + 1, prefix)
    }
}

/// The text of one block.
pub open spec fn rendered_block(b: BlockV, prefix: Seq<char>) -> Seq<char>
    decreases b, 0int,
{
    match b {
        BlockV::Paragraph(ins) => rendered_inlines_from(ins, 0, prefix),
        BlockV::Heading(l, ins) => hashes(l as nat) + seq![' '] + rendered_inlines_from(
            ins,
            0,
            prefix,
        ),
        BlockV::Code(lang, text) => seq!['`', '`', '`'] + lang + seq!['\n'] + text
            + seq!['`', '`', '`'],
        BlockV::Quote(bs) => seq!['>', ' '] + rendered_blocks_from(bs, 0, prefix + seq!['>', ' ']),
        BlockV::List(t, items) => rendered_items_from(t, items, 0, prefix),
        BlockV::Rule => seq!['-', '-', '-'],
    }
}

/// The text of the blocks from position `k` on, separated by blank lines
/// except where `sep_skipped` holds.
pub open spec fn rendered_blocks_from(bs: Seq<BlockV>, k: int, prefix: Seq<char>) -> Seq<char>
    decreases bs, bs.len() - k,
{
    if k < 0 || k >= bs.len() {
        Seq::empty()
    } else {
        rendered_block(bs[k], prefix) + (if k + 1 < bs.len() && !sep_skipped(bs, k, prefix) {
            block_sep(prefix)
        } else {
            Seq::empty()
        }) + rendered_blocks_from(bs, k + 1, prefix)
    }
}

/// The full text of a document.
pub open spec fn rendered_doc(d: Seq<BlockV>) -> Seq<char> {
    rendered_blocks_from(d, 0, Seq::empty())
}

/// Relies on `String::push_str` of std: appends the characters of `s`.
#[verifier::external_body]
pub(crate) fn append_str(out: &mut String, s: &str)
    ensures
        final(out)@ == old(out)@ + s@,
{
    out.push_str(s)
}

/// Relies on `String::push` of std: appends one character.
#[verifier::external_body]
fn push_char(out: &mut String, c: char)
    ensures
        final(out)@ == old(out)@.push(c),
{
    out.push(c)
}

/// Appends one decimal digit.
fn push_digit(out: &mut String, d: u64)
    requires
        d < 10,
    ensures
        final(out)@ == old(out)@.push(digit_char(d as nat)),
{
    let c: char = match d {
        0 => '0',
        1 => '1',
        2 => '2',
        3 => '3',
        4 => '4',
        5 => '5',
        6 => '6',
        7 => '7',
        8 => '8',
        _ => '9',
    };
    push_char(out, c);
}

/// Appends the decimal notation of `n`.
fn push_u64(out: &mut String, n: u64)
    ensures
        final(out)@ == old(out)@ + dec_str(n as nat),
    decreases n,
{
    if n < 10 {
        push_digit(out, n);
        proof {
            assert(old(out)@.push(digit_char(n as nat)) =~= old(out)@ + dec_str(n as nat));
        }
    } else {
        push_u64(out, n / 10);
        push_digit(out, n % 10);
        proof {
            assert((old(out)@ + dec_str((n / 10) as nat)).push(digit_char((n % 10) as nat)) =~= old(
                out,
            )@ + dec_str(n as nat));
        }
    }
}

/// Renders inline elements one after the other. Nested emphasis content is
/// rendered with an empty prefix.
#[verifier::loop_isolation(false)]
pub fn render_inlines(is: &Vec<Inline>, prefix: &str, out: &mut String)
    ensures
        final(out)@ == old(out)@ + rendered_inlines_from(inlines_view(is@), 0, prefix@),
    decreases is@,
{
    let ghost iv = inlines_view(is@);
    let ghost p = prefix@;
    let ghost out0 = out@;
    proof {
        lemma_inlines_view_index(is@);
    }
    let n = is.len();
    let mut k: usize = 0;
    while k < n
        invariant
            k <= n,
            n == is@.len(),
            out0 + rendered_inlines_from(iv, 0, p) == out@ + rendered_inlines_from(iv, k as int, p),
        decreases n - k,
    {
        let ghost outk = out@;
        let ghost chunk = rendered_inline(iv[k as int], p);
        proof {
            assert(rendered_inlines_from(iv, k as int, p) == chunk + rendered_inlines_from(
                iv,
                k as int + 1,
                p,
            ));
        }
        match &is[k] {
            Inline::Plain(s) => {
                append_str(out, s.as_str());
            },
            Inline::Html(s) => {
                append_str(out, s.as_str());
            },
            Inline::Emph(v) => {
                proof {
                    assert(decreases_to!(is@ => is@[k as int]));
                    assert(decreases_to!(is@[k as int] => is@[k as int]->Emph_0));
                    assert(decreases_to!(is@[k as int]->Emph_0 => is@[k as int]->Emph_0@));
                }
                push_char(out, '*');
                render_inlines(v, "", out);
                push_char(out, '*');
                proof {
                    reveal_strlit("");
                    assert(""@ =~= Seq::<char>::empty());
                    assert(out@ =~= outk + chunk);
                }
            },
            Inline::Strong(v) => {
                proof {
                    assert(decreases_to!(is@ => is@[k as int]));
                    assert(decreases_to!(is@[k as int] => is@[k as int]->Strong_0));
                    assert(decreases_to!(is@[k as int]->Strong_0 => is@[k as int]->Strong_0@));
                }
                push_char(out, '*');
                push_char(out, '*');
                render_inlines(v, "", out);
                push_char(out, '*');
                push_char(out, '*');
                proof {
                    reveal_strlit("");
                    assert(""@ =~= Seq::<char>::empty());
                    assert(out@ =~= outk + chunk);
                }
            },
            Inline::Strikethrough(v) => {
                proof {
                    assert(decreases_to!(is@ => is@[k as int]));
                    assert(decreases_to!(
                        is@[k as int] => is@[k as int]->Strikethrough_0));
                    assert(decreases_to!(
                        is@[k as int]->Strikethrough_0 => is@[k as int]->Strikethrough_0@));
                }
                push_char(out, '~');
                push_char(out, '~');
                render_inlines(v, "", out);
                push_char(out, '~');
                push_char(out, '~');
                proof {
                    reveal_strlit("");
                    assert(""@ =~= Seq::<char>::empty());
                    assert(out@ =~= outk + chunk);
                }
            },
            Inline::Code(s) => {
                push_char(out, '`');
                append_str(out, s.as_str());
                push_char(out, '`');
                proof {
                    assert(out@ =~= outk + chunk);
                }
            },
            Inline::Link(t, u) => {
                push_char(out, '[');
                append_str(out, t.as_str());
                push_char(out, ']');
                push_char(out, '(');
                append_str(out, u.as_str());
                push_char(out, ')');
                proof {
                    assert(out@ =~= outk + chunk);
                }
            },
            Inline::Image(t, u) => {
                push_char(out, '!');
                push_char(out, '[');
                append_str(out, t.as_str());
                push_char(out, ']');
                push_char(out, '(');
                append_str(out, u.as_str());
                push_char(out, ')');
                proof {
                    assert(out@ =~= outk + chunk);
                }
            },
            Inline::SoftBreak => {
                push_char(out, '\n');
                append_str(out, prefix);
                proof {
                    assert(out@ =~= outk + chunk);
                }
            },
            Inline::HardBreak => {
                push_char(out, '\n');
                push_char(out, '\n');
                append_str(out, prefix);
                proof {
                    assert(out@ =~= outk + chunk);
                }
            },
        }
        proof {
            assert(out@ =~= outk + chunk);
            assert(out0 + rendered_inlines_from(iv, 0, p) =~= out@ + rendered_inlines_from(
                iv,
                k as int + 1,
                p,
            ));
        }
        k += 1;
    }
    proof {
        assert(rendered_inlines_from(iv, n as int, p) == Seq::<char>::empty());
        assert(out0 + rendered_inlines_from(iv, 0, p) =~= out@);
    }
}

/// Writes the marker of the item at position `k`.
fn render_marker(list_type: ListType, k: usize, prefix: &str, out: &mut String)
    requires
        k < u64::MAX,
    ensures
        final(out)@ == old(out)@ + rendered_marker(list_type, k as int, prefix@),
{
    if k > 0 {
        append_str(out, prefix);
    }
    match list_type {
        ListType::Numbered => {
            push_u64(out, (k as u64) + 1);
            push_char(out, '.');
            push_char(out, ' ');
        },
        ListType::Plain => {
            push_char(out, '-');
            push_char(out, ' ');
        },
    }
    proof {
        assert(final(out)@ =~= old(out)@ + rendered_marker(list_type, k as int, prefix@));
    }
}

/// Writes the checkbox of a task item, or nothing.
fn render_task(task: &Option<bool>, out: &mut String)
    ensures
        final(out)@ == old(out)@ + rendered_task(*task),
{
    match task {
        Some(done) => {
            push_char(out, '[');
            if *done {
                push_char(out, 'x');
            } else {
                push_char(out, ' ');
            }
            push_char(out, ']');
            push_char(out, ' ');
        },
        None => {},
    }
    proof {
        assert(final(out)@ =~= old(out)@ + rendered_task(*task));
    }
}

/// Renders the items of a list: marker, optional checkbox, nested blocks one
/// indent unit deeper, and a line break between neighbouring items.
#[verifier::loop_isolation(false)]
#[verifier::rlimit(50)]
pub fn render_list_items(list_type: ListType, is: &Vec<ListItem>, prefix: &str, out: &mut String)
    ensures
        final(out)@ == old(out)@ + rendered_items_from(list_type, items_view(is@), 0, prefix@),
    decreases is@,
{
    let ghost iv = items_view(is@);
    let ghost p = prefix@;
    let ghost out0 = out@;
    proof {
        lemma_items_view_index(is@);
    }
    let n = is.len();
    let mut k: usize = 0;
    while k < n
        invariant
            k <= n,
            n == is@.len(),
            out0 + rendered_items_from(list_type, iv, 0, p) == out@ + rendered_items_from(
                list_type,
                iv,
                k as int,
                p,
            ),
        decreases n - k,
    {
        let ghost outk = out@;
        let ghost m1 = rendered_marker(list_type, k as int, p);
        let ghost m2 = rendered_task(iv[k as int].task);
        let ghost m3 = rendered_blocks_from(iv[k as int].blocks, 0, p + seq![' ', ' ', ' ', ' ']);
        let ghost m4: Seq<char> = if k as int + 1 < iv.len() {
            seq!['\n']
        } else {
            Seq::<char>::empty()
        };
        proof {
            assert(rendered_items_from(list_type, iv, k as int, p) == m1 + m2 + m3 + m4
                + rendered_items_from(list_type, iv, k as int + 1, p));
        }
        render_marker(list_type, k, prefix, out);
        let item = &is[k];
        let ghost outm = out@;
        render_task(&item.task, out);
        proof {
            assert(out@ == outm + m2);
        }
        let ghost outt = out@;
        let mut deeper = String::new();
        append_str(&mut deeper, prefix);
        append_str(&mut deeper, "    ");
        proof {
            reveal_strlit("    ");
            assert("    "@ =~= seq![' ', ' ', ' ', ' ']);
            assert(deeper@ =~= p + seq![' ', ' ', ' ', ' ']);
            assert(decreases_to!(is@ => is@[k as int]));
            assert(decreases_to!(is@[k as int] => is@[k as int].blocks));
            assert(decreases_to!(is@[k as int].blocks => is@[k as int].blocks@));
        }
        render_blocks(&item.blocks, deeper.as_str(), out);
        proof {
            assert(out@ =~= outt + m3);
        }
        let ghost outb = out@;
        if k + 1 < n {
            push_char(out, '\n');
        }
        proof {
            assert(out@ =~= outb + m4);
            assert(out@ =~= outk + (m1 + m2 + m3 + m4));
            assert(out0 + rendered_items_from(list_type, iv, 0, p) =~= out@ + rendered_items_from(
                list_type,
                iv,
                k as int + 1,
                p,
            ));
        }
        k += 1;
    }
    proof {
        assert(rendered_items_from(list_type, iv, n as int, p) == Seq::<char>::empty());
        assert(out0 + rendered_items_from(list_type, iv, 0, p) =~= out@);
    }
}

/// Renders a sequence of blocks, separated by blank lines except where the
/// tight-list exception applies.
#[verifier::loop_isolation(false)]
#[verifier::rlimit(50)]
pub fn render_blocks(bs: &Vec<Block>, prefix: &str, out: &mut String)
    ensures
        final(out)@ == old(out)@ + rendered_blocks_from(blocks_view(bs@), 0, prefix@),
    decreases bs@,
{
    let ghost bv = blocks_view(bs@);
    let ghost p = prefix@;
    let ghost out0 = out@;
    proof {
        lemma_blocks_view_index(bs@);
    }
    let n = bs.len();
    let mut k: usize = 0;
    while k < n
        invariant
            k <= n,
            n == bs@.len(),
            out0 + rendered_blocks_from(bv, 0, p) == out@ + rendered_blocks_from(bv, k as int, p),
        decreases n - k,
    {
        let ghost outk = out@;
        let ghost chunk = rendered_block(bv[k as int], p);
        proof {
            assert(rendered_blocks_from(bv, k as int, p) == chunk + (if k as int + 1 < bv.len()
                && !sep_skipped(bv, k as int, p) {
                block_sep(p)
            } else {
                Seq::<char>::empty()
            }) + rendered_blocks_from(bv, k as int + 1, p));
        }
        match &bs[k] {
            Block::Paragraph(ins) => {
                render_inlines(ins, prefix, out);
            },
            Block::Heading(level, ins) => {
                let l = *level;
                let mut m: u32 = 0;
                while m < l
                    invariant
                        m <= l,
                        out@ == outk + hashes(m as nat),
                    decreases l - m,
                {
                    push_char(out, '#');
                    proof {
                        assert(hashes((m + 1) as nat) == hashes(m as nat).push('#'));
                    }
                    m += 1;
                }
                push_char(out, ' ');
                render_inlines(ins, prefix, out);
                proof {
                    assert(out@ =~= outk + chunk);
                }
            },
            Block::Code(lang, text) => {
                append_str(out, "```");
                append_str(out, lang.as_str());
                push_char(out, '\n');
                append_str(out, text.as_str());
                append_str(out, "```");
                proof {
                    reveal_strlit("```");
                    assert("```"@ =~= seq!['`', '`', '`']);
                    assert(out@ =~= outk + chunk);
                }
            },
            Block::Quote(inner) => {
                push_char(out, '>');
                push_char(out, ' ');
                let mut deeper = String::new();
                append_str(&mut deeper, prefix);
                append_str(&mut deeper, "> ");
                proof {
                    reveal_strlit("> ");
                    assert("> "@ =~= seq!['>', ' ']);
                    assert(deeper@ =~= p + seq!['>', ' ']);
                    assert(decreases_to!(bs@ => bs@[k as int]));
                    assert(decreases_to!(bs@[k as int] => bs@[k as int]->Quote_0));
                    assert(decreases_to!(bs@[k as int]->Quote_0 => bs@[k as int]->Quote_0@));
                }
                render_blocks(inner, deeper.as_str(), out);
                proof {
                    assert(out@ =~= outk + chunk);
                }
            },
            Block::List(t, items) => {
                proof {
                    assert(decreases_to!(bs@ => bs@[k as int]));
                    assert(decreases_to!(bs@[k as int] => bs@[k as int]->List_1));
                    assert(decreases_to!(bs@[k as int]->List_1 => bs@[k as int]->List_1@));
                }
                render_list_items(*t, items, prefix, out);
            },
            Block::Rule => {
                append_str(out, "---");
                proof {
                    reveal_strlit("---");
                    assert("---"@ =~= seq!['-', '-', '-']);
                    assert(out@ =~= outk + chunk);
                }
            },
        }
        proof {
            assert(out@ =~= outk + chunk);
        }
        if k + 1 < n {
            let skip = !prefix.is_empty() && k >= 1 && matches!(&bs[k], Block::List(_, _))
                && matches!(&bs[k - 1], Block::Paragraph(_));
            proof {
                assert(skip == sep_skipped(bv, k as int, p));
            }
            if !skip {
                push_char(out, '\n');
                push_char(out, '\n');
                append_str(out, prefix);
            }
        }
        proof {
            assert(out0 + rendered_blocks_from(bv, 0, p) =~= out@ + rendered_blocks_from(
                bv,
                k as int + 1,
                p,
            ));
        }
        k += 1;
    }
    proof {
        assert(rendered_blocks_from(bv, n as int, p) == Seq::<char>::empty());
        assert(out0 + rendered_blocks_from(bv, 0, p) =~= out@);
    }
}

/// A failure while handing rendered text to a sink. Rendering into memory
/// cannot fail; the variant exists for sinks layered on top of the library.
#[derive(Debug)]
pub enum RenderError {
    WriteFailure,
}

impl Markdown {
    /// Renders a document back to text: exactly `rendered_doc` of its value.
    pub fn render(n: &Nodo) -> (r: String)
        ensures
            r@ == rendered_doc(n@),
    {
        let mut out = String::new();
        render_blocks(&n.blocks, "", &mut out);
        proof {
            reveal_strlit("");
            assert(""@ =~= Seq::<char>::empty());
            assert(out@ =~= rendered_doc(n@));
        }
        out
    }
}

impl crate::Render for Markdown {
    type RenderError = RenderError;

    fn render(n: &Nodo) -> Result<String, RenderError> {
        Ok(Markdown::render(n))
    }
}

} // verus!
