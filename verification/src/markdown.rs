//! The markdown front end: an executable recursive-descent parser over the
//! event stream, proved equal to the grammar in `grammar`, and the renderer
//! back to text.
use vstd::prelude::*;
use crate::events::{clone_event, Event, Tag};
use crate::events::{events_of, tokenize, CodeKind};
use crate::grammar::{
    parsed_prefixed, sp_blocks, sp_inline_ref, sp_inline_strike, sp_inline_wrapped, sp_inlines,
    sp_items, sp_text, sp_tight, sp_tight_nested, step, ParseErrV,
};
use crate::{
    block_view, blocks_view, inline_view, inlines_view, item_view, items_view,
    lemma_blocks_view_push, lemma_inlines_view_push, lemma_items_view_push, Block, BlockV, Inline,
    InlineV, ListItem, ListItemV, ListType, Nodo,
};
use crate::grammar::{lemma_parsed_prefixed_assoc, lemma_parsed_prefixed_empty};

verus! {

/// An error from parsing: the offending event, under the rule that refused it.
#[derive(Debug, PartialEq, Eq)]
pub enum ParseError {
    /// An event appeared in a structural position the grammar does not allow.
    UnexpectedElement { event: Event },
    /// A code block body received a non-text event.
    NoText { event: Event },
    /// Extra content stood where only a terminating marker was expected.
    ExpectedEnd { event: Event },
}

impl View for ParseError {
    type V = ParseErrV;

    open spec fn view(&self) -> ParseErrV {
        match self {
            ParseError::UnexpectedElement { event } => ParseErrV::UnexpectedElement(
                event.deep_view(),
            ),
            ParseError::NoText { event } => ParseErrV::NoText(event.deep_view()),
            ParseError::ExpectedEnd { event } => ParseErrV::ExpectedEnd(event.deep_view()),
        }
    }
}

/// Reads the body of a code block: at most one text event, bounded by an end
/// marker or the end of the stream. Exactly `sp_text` of the grammar.
pub fn parse_text(evs: &Vec<Event>, pos: &mut usize) -> (r: Result<String, ParseError>)
    requires
        *old(pos) <= evs@.len(),
    ensures
        ({
            let p = sp_text(evs.deep_view(), *old(pos) as int);
            &&& *final(pos) == p.next
            &&& *old(pos) <= *final(pos) <= evs@.len()
            &&& match (r, p.res) {
                (Ok(s), Ok(t)) => s@ == t,
                (Err(e), Err(pe)) => e@ == pe,
                _ => false,
            }
        }),
{
    if *pos >= evs.len() {
        return Ok(String::new());
    }
    let e = &evs[*pos];
    *pos += 1;
    match e {
        Event::Text(s) => {
            let text = s.clone();
            if *pos >= evs.len() {
                Ok(text)
            } else {
                let e2 = &evs[*pos];
                *pos += 1;
                match e2 {
                    Event::End => Ok(text),
                    _ => Err(ParseError::ExpectedEnd { event: clone_event(e2) }),
                }
            }
        },
        Event::End => Ok(String::new()),
        _ => Err(ParseError::NoText { event: clone_event(e) }),
    }
}

/// Reads inline content in full mode, up to and including the matching end
/// marker. Exactly `sp_inlines` of the grammar.
#[verifier::loop_isolation(false)]
pub fn parse_inlines(evs: &Vec<Event>, pos: &mut usize) -> (r: Result<Vec<Inline>, ParseError>)
    requires
        *old(pos) <= evs@.len(),
    ensures
        ({
            let p = sp_inlines(evs.deep_view(), *old(pos) as int);
            &&& *final(pos) == p.next
            &&& *old(pos) <= *final(pos) <= evs@.len()
            &&& match (r, p.res) {
                (Ok(v), Ok(ins)) => inlines_view(v@) == ins,
                (Err(e), Err(pe)) => e@ == pe,
                _ => false,
            }
        }),
    decreases evs@.len() - *old(pos),
{
    let ghost evsV = evs.deep_view();
    let ghost i0 = *pos as int;
    let mut out: Vec<Inline> = Vec::new();
    proof {
        lemma_parsed_prefixed_empty(sp_inlines(evsV, i0));
        assert(inlines_view(out@) =~= Seq::<crate::InlineV>::empty());
    }
    loop
        invariant
            i0 <= *pos as int <= evsV.len(),
            sp_inlines(evsV, i0) == parsed_prefixed(
                inlines_view(out@),
                sp_inlines(evsV, *pos as int),
            ),
        decreases evsV.len() - *pos as int,
    {
        let ghost i = *pos as int;
        let ghost outV = inlines_view(out@);
        if *pos >= evs.len() {
            proof {
                assert(inlines_view(out@) + Seq::<InlineV>::empty() =~= inlines_view(out@));
            }
            return Ok(out);
        }
        let e = &evs[*pos];
        *pos += 1;
        match e {
            Event::Start(tag) => match tag {
                Tag::Emphasis => {
                    match parse_inlines(evs, pos) {
                        Err(err) => {
                            proof {
                                assert(evsV[i] == e.deep_view());
                                assert(sp_inlines(evsV, i) == sp_inline_wrapped(evsV, i, true, false));
                            }
                            return Err(err);
                        },
                        Ok(v) => {
                            proof {
                                assert(evsV[i] == e.deep_view());
                                let inner = sp_inlines(evsV, i + 1);
                                assert(step(i, inner.next, evsV.len() as int) == inner.next);
                                lemma_inlines_view_push(out@, Inline::Emph(v));
                                lemma_parsed_prefixed_assoc(
                                    outV,
                                    seq![inline_view(Inline::Emph(v))],
                                    sp_inlines(evsV, inner.next),
                                );
                            }
                            out.push(Inline::Emph(v));
                        },
                    }
                },
                Tag::Strong => {
                    match parse_inlines(evs, pos) {
                        Err(err) => {
                            proof {
                                assert(evsV[i] == e.deep_view());
                                assert(sp_inlines(evsV, i) == sp_inline_wrapped(evsV, i, true, true));
                            }
                            return Err(err);
                        },
                        Ok(v) => {
                            proof {
                                assert(evsV[i] == e.deep_view());
                                let inner = sp_inlines(evsV, i + 1);
                                assert(step(i, inner.next, evsV.len() as int) == inner.next);
                                lemma_inlines_view_push(out@, Inline::Strong(v));
                                lemma_parsed_prefixed_assoc(
                                    outV,
                                    seq![inline_view(Inline::Strong(v))],
                                    sp_inlines(evsV, inner.next),
                                );
                            }
                            out.push(Inline::Strong(v));
                        },
                    }
                },
                Tag::Strikethrough => {
                    match parse_inlines(evs, pos) {
                        Err(err) => {
                            proof {
                                assert(evsV[i] == e.deep_view());
                                assert(sp_inlines(evsV, i) == sp_inline_strike(evsV, i, true));
                            }
                            return Err(err);
                        },
                        Ok(v) => {
                            proof {
                                assert(evsV[i] == e.deep_view());
                                let inner = sp_inlines(evsV, i + 1);
                                assert(step(i, inner.next, evsV.len() as int) == inner.next);
                                lemma_inlines_view_push(out@, Inline::Strikethrough(v));
                                lemma_parsed_prefixed_assoc(
                                    outV,
                                    seq![inline_view(Inline::Strikethrough(v))],
                                    sp_inlines(evsV, inner.next),
                                );
                            }
                            out.push(Inline::Strikethrough(v));
                        },
                    }
                },
                Tag::Link(t, u) => {
                    let x = Inline::Link(t.clone(), u.clone());
                    if *pos >= evs.len() {
                        proof {
                            assert(evsV[i] == e.deep_view());
                            assert(sp_inlines(evsV, i) == sp_inline_ref(evsV, i, true, InlineV::Link(t@, u@)));
                            lemma_inlines_view_push(out@, x);
                            lemma_parsed_prefixed_assoc(
                                outV,
                                seq![inline_view(x)],
                                sp_inlines(evsV, i + 1),
                            );
                        }
                        out.push(x);
                    } else {
                        let e2 = &evs[*pos];
                        *pos += 1;
                        match e2 {
                            Event::End => {
                                proof {
                                    assert(evsV[i] == e.deep_view());
                                    assert(evsV[i + 1] == e2.deep_view());
                                    assert(sp_inlines(evsV, i) == (match evsV[i]->Start_0 {
                                        crate::events::TagV::Link(t1, u1) => sp_inline_ref(evsV, i, true, InlineV::Link(t1, u1)),
                                        crate::events::TagV::Image(t1, u1) => sp_inline_ref(evsV, i, true, InlineV::Image(t1, u1)),
                                        _ => sp_inlines(evsV, i),
                                    }));
                                    lemma_inlines_view_push(out@, x);
                                    lemma_parsed_prefixed_assoc(
                                        outV,
                                        seq![inline_view(x)],
                                        sp_inlines(evsV, i + 2),
                                    );
                                }
                                out.push(x);
                            },
                            _ => {
                                proof {
                                    assert(evsV[i] == e.deep_view());
                                    assert(evsV[i + 1] == e2.deep_view());
                                    assert(sp_inlines(evsV, i) == (match evsV[i]->Start_0 {
                                        crate::events::TagV::Link(t1, u1) => sp_inline_ref(evsV, i, true, InlineV::Link(t1, u1)),
                                        crate::events::TagV::Image(t1, u1) => sp_inline_ref(evsV, i, true, InlineV::Image(t1, u1)),
                                        _ => sp_inlines(evsV, i),
                                    }));
                                }
                                return Err(ParseError::ExpectedEnd { event: clone_event(e2) });
                            },
                        }
                    }
                },
                Tag::Image(t, u) => {
                    let x = Inline::Image(t.clone(), u.clone());
                    if *pos >= evs.len() {
                        proof {
                            assert(evsV[i] == e.deep_view());
                            assert(sp_inlines(evsV, i) == sp_inline_ref(evsV, i, true, InlineV::Image(t@, u@)));
                            lemma_inlines_view_push(out@, x);
                            lemma_parsed_prefixed_assoc(
                                outV,
                                seq![inline_view(x)],
                                sp_inlines(evsV, i + 1),
                            );
                        }
                        out.push(x);
                    } else {
                        let e2 = &evs[*pos];
                        *pos += 1;
                        match e2 {
                            Event::End => {
                                proof {
                                    assert(evsV[i] == e.deep_view());
                                    assert(evsV[i + 1] == e2.deep_view());
                                    assert(sp_inlines(evsV, i) == (match evsV[i]->Start_0 {
                                        crate::events::TagV::Link(t1, u1) => sp_inline_ref(evsV, i, true, InlineV::Link(t1, u1)),
                                        crate::events::TagV::Image(t1, u1) => sp_inline_ref(evsV, i, true, InlineV::Image(t1, u1)),
                                        _ => sp_inlines(evsV, i),
                                    }));
                                    lemma_inlines_view_push(out@, x);
                                    lemma_parsed_prefixed_assoc(
                                        outV,
                                        seq![inline_view(x)],
                                        sp_inlines(evsV, i + 2),
                                    );
                                }
                                out.push(x);
                            },
                            _ => {
                                proof {
                                    assert(evsV[i] == e.deep_view());
                                    assert(evsV[i + 1] == e2.deep_view());
                                    assert(sp_inlines(evsV, i) == (match evsV[i]->Start_0 {
                                        crate::events::TagV::Link(t1, u1) => sp_inline_ref(evsV, i, true, InlineV::Link(t1, u1)),
                                        crate::events::TagV::Image(t1, u1) => sp_inline_ref(evsV, i, true, InlineV::Image(t1, u1)),
                                        _ => sp_inlines(evsV, i),
                                    }));
                                }
                                return Err(ParseError::ExpectedEnd { event: clone_event(e2) });
                            },
                        }
                    }
                },
                _ => {
                    proof {
                        assert(evsV[i] == e.deep_view());
                    }
                    return Err(ParseError::UnexpectedElement { event: clone_event(e) });
                },
            },
            Event::End => {
                proof {
                    assert(evsV[i] == e.deep_view());
                    assert(inlines_view(out@) + Seq::<InlineV>::empty() =~= inlines_view(out@));
                }
                return Ok(out);
            },
            Event::Text(s) => {
                let x = Inline::Plain(s.clone());
                proof {
                    assert(evsV[i] == e.deep_view());
                    lemma_inlines_view_push(out@, x);
                    lemma_parsed_prefixed_assoc(outV, seq![inline_view(x)], sp_inlines(evsV, i + 1));
                }
                out.push(x);
            },
            Event::Code(s) => {
                let x = Inline::Code(s.clone());
                proof {
                    assert(evsV[i] == e.deep_view());
                    lemma_inlines_view_push(out@, x);
                    lemma_parsed_prefixed_assoc(outV, seq![inline_view(x)], sp_inlines(evsV, i + 1));
                }
                out.push(x);
            },
            Event::Html(s) => {
                let x = Inline::Html(s.clone());
                proof {
                    assert(evsV[i] == e.deep_view());
                    lemma_inlines_view_push(out@, x);
                    lemma_parsed_prefixed_assoc(outV, seq![inline_view(x)], sp_inlines(evsV, i + 1));
                }
                out.push(x);
            },
            Event::SoftBreak => {
                proof {
                    assert(evsV[i] == e.deep_view());
                    lemma_inlines_view_push(out@, Inline::SoftBreak);
                    lemma_parsed_prefixed_assoc(
                        outV,
                        seq![InlineV::SoftBreak],
                        sp_inlines(evsV, i + 1),
                    );
                }
                out.push(Inline::SoftBreak);
            },
            Event::HardBreak => {
                proof {
                    assert(evsV[i] == e.deep_view());
                    lemma_inlines_view_push(out@, Inline::HardBreak);
                    lemma_parsed_prefixed_assoc(
                        outV,
                        seq![InlineV::HardBreak],
                        sp_inlines(evsV, i + 1),
                    );
                }
                out.push(Inline::HardBreak);
            },
            Event::Rule => {
                proof {
                    assert(evsV[i] == e.deep_view());
                }
            },
            _ => {
                proof {
                    assert(evsV[i] == e.deep_view());
                }
                return Err(ParseError::UnexpectedElement { event: clone_event(e) });
            },
        }
    }
}

/// Reads inline content in tight-paragraph mode: a block-start marker or an
/// unmatched end marker terminates without being consumed. Exactly `sp_tight`
/// of the grammar.
#[verifier::loop_isolation(false)]
pub fn parse_tight_paragraph(evs: &Vec<Event>, pos: &mut usize) -> (r: Result<
    Vec<Inline>,
    ParseError,
>)
    requires
        *old(pos) <= evs@.len(),
    ensures
        ({
            let p = sp_tight(evs.deep_view(), *old(pos) as int);
            &&& *final(pos) == p.next
            &&& *old(pos) <= *final(pos) <= evs@.len()
            &&& match (r, p.res) {
                (Ok(v), Ok(ins)) => inlines_view(v@) == ins,
                (Err(e), Err(pe)) => e@ == pe,
                _ => false,
            }
        }),
    decreases evs@.len() - *old(pos),
{
    let ghost evsV = evs.deep_view();
    let ghost i0 = *pos as int;
    let mut out: Vec<Inline> = Vec::new();
    proof {
        lemma_parsed_prefixed_empty(sp_tight(evsV, i0));
        assert(inlines_view(out@) =~= Seq::<InlineV>::empty());
    }
    loop
        invariant
            i0 <= *pos as int <= evsV.len(),
            sp_tight(evsV, i0) == parsed_prefixed(
                inlines_view(out@),
                sp_tight(evsV, *pos as int),
            ),
        decreases evsV.len() - *pos as int,
    {
        let ghost i = *pos as int;
        let ghost outV = inlines_view(out@);
        proof {
            assert(inlines_view(out@) + Seq::<InlineV>::empty() =~= inlines_view(out@));
        }
        if *pos >= evs.len() {
            return Ok(out);
        }
        let e = &evs[*pos];
        match e {
            Event::Start(tag) => match tag {
                Tag::Emphasis => {
                    *pos += 1;
                    match parse_tight_paragraph(evs, pos) {
                        Err(err) => {
                            proof {
                                assert(evsV[i] == e.deep_view());
                                assert(sp_tight_nested(evsV, i + 1).res is Err);
                                assert(sp_tight(evsV, i) == sp_inline_wrapped(evsV, i, false, false));
                            }
                            return Err(err);
                        },
                        Ok(v) => {
                            let ghost j = *pos as int;
                            if *pos < evs.len() {
                                let e2 = &evs[*pos];
                                match e2 {
                                    Event::End => {
                                        proof {
                                            assert(evsV[j] == e2.deep_view());
                                        }
                                        *pos += 1;
                                    },
                                    _ => {
                                        proof {
                                            assert(evsV[j] == e2.deep_view());
                                        }
                                    },
                                }
                            }
                            proof {
                                assert(evsV[i] == e.deep_view());
                                let nested = sp_tight_nested(evsV, i + 1);
                                assert(*pos as int == nested.next);
                                assert(sp_tight(evsV, i) == sp_inline_wrapped(evsV, i, false, false));
                                assert(step(i, nested.next, evsV.len() as int) == nested.next);
                                lemma_inlines_view_push(out@, Inline::Emph(v));
                                lemma_parsed_prefixed_assoc(
                                    outV,
                                    seq![inline_view(Inline::Emph(v))],
                                    sp_tight(evsV, nested.next),
                                );
                            }
                            out.push(Inline::Emph(v));
                        },
                    }
                },
                Tag::Strong => {
                    *pos += 1;
                    match parse_tight_paragraph(evs, pos) {
                        Err(err) => {
                            proof {
                                assert(evsV[i] == e.deep_view());
                                assert(sp_tight_nested(evsV, i + 1).res is Err);
                                assert(sp_tight(evsV, i) == sp_inline_wrapped(evsV, i, false, true));
                            }
                            return Err(err);
                        },
                        Ok(v) => {
                            let ghost j = *pos as int;
                            if *pos < evs.len() {
                                let e2 = &evs[*pos];
                                match e2 {
                                    Event::End => {
                                        proof {
                                            assert(evsV[j] == e2.deep_view());
                                        }
                                        *pos += 1;
                                    },
                                    _ => {
                                        proof {
                                            assert(evsV[j] == e2.deep_view());
                                        }
                                    },
                                }
                            }
                            proof {
                                assert(evsV[i] == e.deep_view());
                                let nested = sp_tight_nested(evsV, i + 1);
                                assert(*pos as int == nested.next);
                                assert(sp_tight(evsV, i) == sp_inline_wrapped(evsV, i, false, true));
                                assert(step(i, nested.next, evsV.len() as int) == nested.next);
                                lemma_inlines_view_push(out@, Inline::Strong(v));
                                lemma_parsed_prefixed_assoc(
                                    outV,
                                    seq![inline_view(Inline::Strong(v))],
                                    sp_tight(evsV, nested.next),
                                );
                            }
                            out.push(Inline::Strong(v));
                        },
                    }
                },
                Tag::Strikethrough => {
                    *pos += 1;
                    match parse_tight_paragraph(evs, pos) {
                        Err(err) => {
                            proof {
                                assert(evsV[i] == e.deep_view());
                                assert(sp_tight_nested(evsV, i + 1).res is Err);
                                assert(sp_tight(evsV, i) == sp_inline_strike(evsV, i, false));
                            }
                            return Err(err);
                        },
                        Ok(v) => {
                            let ghost j = *pos as int;
                            if *pos < evs.len() {
                                let e2 = &evs[*pos];
                                match e2 {
                                    Event::End => {
                                        proof {
                                            assert(evsV[j] == e2.deep_view());
                                        }
                                        *pos += 1;
                                    },
                                    _ => {
                                        proof {
                                            assert(evsV[j] == e2.deep_view());
                                        }
                                    },
                                }
                            }
                            proof {
                                assert(evsV[i] == e.deep_view());
                                let nested = sp_tight_nested(evsV, i + 1);
                                assert(*pos as int == nested.next);
                                assert(sp_tight(evsV, i) == sp_inline_strike(evsV, i, false));
                                assert(step(i, nested.next, evsV.len() as int) == nested.next);
                                lemma_inlines_view_push(out@, Inline::Strikethrough(v));
                                lemma_parsed_prefixed_assoc(
                                    outV,
                                    seq![inline_view(Inline::Strikethrough(v))],
                                    sp_tight(evsV, nested.next),
                                );
                            }
                            out.push(Inline::Strikethrough(v));
                        },
                    }
                },
                Tag::Link(t, u) => {
                    *pos += 1;
                    let x = Inline::Link(t.clone(), u.clone());
                    if *pos >= evs.len() {
                        proof {
                            assert(evsV[i] == e.deep_view());
                            assert(sp_tight(evsV, i) == sp_inline_ref(evsV, i, false, InlineV::Link(t@, u@)));
                            lemma_inlines_view_push(out@, x);
                            lemma_parsed_prefixed_assoc(
                                outV,
                                seq![inline_view(x)],
                                sp_tight(evsV, i + 1),
                            );
                        }
                        out.push(x);
                    } else {
                        let e2 = &evs[*pos];
                        *pos += 1;
                        match e2 {
                            Event::End => {
                                proof {
                                    assert(evsV[i] == e.deep_view());
                                    assert(evsV[i + 1] == e2.deep_view());
                                    assert(sp_tight(evsV, i) == sp_inline_ref(evsV, i, false, InlineV::Link(t@, u@)));
                                    lemma_inlines_view_push(out@, x);
                                    lemma_parsed_prefixed_assoc(
                                        outV,
                                        seq![inline_view(x)],
                                        sp_tight(evsV, i + 2),
                                    );
                                }
                                out.push(x);
                            },
                            _ => {
                                proof {
                                    assert(evsV[i] == e.deep_view());
                                    assert(evsV[i + 1] == e2.deep_view());
                                    assert(sp_tight(evsV, i) == sp_inline_ref(evsV, i, false, InlineV::Link(t@, u@)));
                                }
                                return Err(ParseError::ExpectedEnd { event: clone_event(e2) });
                            },
                        }
                    }
                },
                Tag::Image(t, u) => {
                    *pos += 1;
                    let x = Inline::Image(t.clone(), u.clone());
                    if *pos >= evs.len() {
                        proof {
                            assert(evsV[i] == e.deep_view());
                            assert(sp_tight(evsV, i) == sp_inline_ref(evsV, i, false, InlineV::Image(t@, u@)));
                            lemma_inlines_view_push(out@, x);
                            lemma_parsed_prefixed_assoc(
                                outV,
                                seq![inline_view(x)],
                                sp_tight(evsV, i + 1),
                            );
                        }
                        out.push(x);
                    } else {
                        let e2 = &evs[*pos];
                        *pos += 1;
                        match e2 {
                            Event::End => {
                                proof {
                                    assert(evsV[i] == e.deep_view());
                                    assert(evsV[i + 1] == e2.deep_view());
                                    assert(sp_tight(evsV, i) == sp_inline_ref(evsV, i, false, InlineV::Image(t@, u@)));
                                    lemma_inlines_view_push(out@, x);
                                    lemma_parsed_prefixed_assoc(
                                        outV,
                                        seq![inline_view(x)],
                                        sp_tight(evsV, i + 2),
                                    );
                                }
                                out.push(x);
                            },
                            _ => {
                                proof {
                                    assert(evsV[i] == e.deep_view());
                                    assert(evsV[i + 1] == e2.deep_view());
                                    assert(sp_tight(evsV, i) == sp_inline_ref(evsV, i, false, InlineV::Image(t@, u@)));
                                }
                                return Err(ParseError::ExpectedEnd { event: clone_event(e2) });
                            },
                        }
                    }
                },
                _ => {
                    proof {
                        assert(evsV[i] == e.deep_view());
                    }
                    return Ok(out);
                },
            },
            Event::End => {
                proof {
                    assert(evsV[i] == e.deep_view());
                }
                return Ok(out);
            },
            Event::Text(s) => {
                let x = Inline::Plain(s.clone());
                proof {
                    assert(evsV[i] == e.deep_view());
                    lemma_inlines_view_push(out@, x);
                    lemma_parsed_prefixed_assoc(outV, seq![inline_view(x)], sp_tight(evsV, i + 1));
                }
                *pos += 1;
                out.push(x);
            },
            Event::Code(s) => {
                let x = Inline::Code(s.clone());
                proof {
                    assert(evsV[i] == e.deep_view());
                    lemma_inlines_view_push(out@, x);
                    lemma_parsed_prefixed_assoc(outV, seq![inline_view(x)], sp_tight(evsV, i + 1));
                }
                *pos += 1;
                out.push(x);
            },
            Event::Html(s) => {
                let x = Inline::Html(s.clone());
                proof {
                    assert(evsV[i] == e.deep_view());
                    lemma_inlines_view_push(out@, x);
                    lemma_parsed_prefixed_assoc(outV, seq![inline_view(x)], sp_tight(evsV, i + 1));
                }
                *pos += 1;
                out.push(x);
            },
            Event::SoftBreak => {
                proof {
                    assert(evsV[i] == e.deep_view());
                    lemma_inlines_view_push(out@, Inline::SoftBreak);
                    lemma_parsed_prefixed_assoc(
                        outV,
                        seq![InlineV::SoftBreak],
                        sp_tight(evsV, i + 1),
                    );
                }
                *pos += 1;
                out.push(Inline::SoftBreak);
            },
            Event::HardBreak => {
                proof {
                    assert(evsV[i] == e.deep_view());
                    lemma_inlines_view_push(out@, Inline::HardBreak);
                    lemma_parsed_prefixed_assoc(
                        outV,
                        seq![InlineV::HardBreak],
                        sp_tight(evsV, i + 1),
                    );
                }
                *pos += 1;
                out.push(Inline::HardBreak);
            },
            Event::Rule => {
                proof {
                    assert(evsV[i] == e.deep_view());
                }
                *pos += 1;
            },
            _ => {
                proof {
                    assert(evsV[i] == e.deep_view());
                }
                *pos += 1;
                return Err(ParseError::UnexpectedElement { event: clone_event(e) });
            },
        }
    }
}

/// Reads the items of a list, up to and including the list's end marker.
/// Exactly `sp_items` of the grammar.
#[verifier::loop_isolation(false)]
pub fn parse_list_items(evs: &Vec<Event>, pos: &mut usize) -> (r: Result<
    Vec<ListItem>,
    ParseError,
>)
    requires
        *old(pos) <= evs@.len(),
    ensures
        ({
            let p = sp_items(evs.deep_view(), *old(pos) as int);
            &&& *final(pos) == p.next
            &&& *old(pos) <= *final(pos) <= evs@.len()
            &&& match (r, p.res) {
                (Ok(v), Ok(items)) => items_view(v@) == items,
                (Err(e), Err(pe)) => e@ == pe,
                _ => false,
            }
        }),
    decreases evs@.len() - *old(pos),
{
    let ghost evsV = evs.deep_view();
    let ghost i0 = *pos as int;
    let mut out: Vec<ListItem> = Vec::new();
    proof {
        lemma_parsed_prefixed_empty(sp_items(evsV, i0));
        assert(items_view(out@) =~= Seq::<ListItemV>::empty());
    }
    loop
        invariant
            i0 <= *pos as int <= evsV.len(),
            sp_items(evsV, i0) == parsed_prefixed(
                items_view(out@),
                sp_items(evsV, *pos as int),
            ),
        decreases evsV.len() - *pos as int,
    {
        let ghost i = *pos as int;
        let ghost outV = items_view(out@);
        proof {
            assert(items_view(out@) + Seq::<ListItemV>::empty() =~= items_view(out@));
        }
        if *pos >= evs.len() {
            return Ok(out);
        }
        let e = &evs[*pos];
        *pos += 1;
        match e {
            Event::Start(tag) => match tag {
                Tag::Item => {
                    if *pos >= evs.len() {
                        proof {
                            assert(evsV[i] == e.deep_view());
                        }
                        return Ok(out);
                    }
                    let e2 = &evs[*pos];
                    let task: Option<bool> = match e2 {
                        Event::TaskListMarker(b) => {
                            let bv = *b;
                            *pos += 1;
                            Some(bv)
                        },
                        _ => None,
                    };
                    match parse_blocks(evs, pos) {
                        Err(err) => {
                            proof {
                                assert(evsV[i] == e.deep_view());
                                assert(evsV[i + 1] == e2.deep_view());
                            }
                            return Err(err);
                        },
                        Ok(bs) => {
                            let item = ListItem { task, blocks: bs };
                            proof {
                                assert(evsV[i] == e.deep_view());
                                assert(evsV[i + 1] == e2.deep_view());
                                let start = if task is Some { i + 2 } else { i + 1 };
                                let inner = sp_blocks(evsV, start);
                                let base = if task is Some { i + 1 } else { i };
                                assert(step(base, inner.next, evsV.len() as int) == inner.next);
                                lemma_items_view_push(out@, item);
                                lemma_parsed_prefixed_assoc(
                                    outV,
                                    seq![item_view(item)],
                                    sp_items(evsV, inner.next),
                                );
                            }
                            out.push(item);
                        },
                    }
                },
                _ => {
                    proof {
                        assert(evsV[i] == e.deep_view());
                    }
                    return Err(ParseError::UnexpectedElement { event: clone_event(e) });
                },
            },
            Event::End => {
                proof {
                    assert(evsV[i] == e.deep_view());
                }
                return Ok(out);
            },
            Event::Rule => {
                proof {
                    assert(evsV[i] == e.deep_view());
                }
            },
            _ => {
                proof {
                    assert(evsV[i] == e.deep_view());
                }
                return Err(ParseError::UnexpectedElement { event: clone_event(e) });
            },
        }
    }
}

/// Reads a sequence of blocks, up to and including an end marker, or to the
/// end of the stream. Exactly `sp_blocks` of the grammar.
#[verifier::loop_isolation(false)]
pub fn parse_blocks(evs: &Vec<Event>, pos: &mut usize) -> (r: Result<Vec<Block>, ParseError>)
    requires
        *old(pos) <= evs@.len(),
    ensures
        ({
            let p = sp_blocks(evs.deep_view(), *old(pos) as int);
            &&& *final(pos) == p.next
            &&& *old(pos) <= *final(pos) <= evs@.len()
            &&& match (r, p.res) {
                (Ok(v), Ok(bs)) => blocks_view(v@) == bs,
                (Err(e), Err(pe)) => e@ == pe,
                _ => false,
            }
        }),
    decreases evs@.len() - *old(pos),
{
    let ghost evsV = evs.deep_view();
    let ghost i0 = *pos as int;
    let mut out: Vec<Block> = Vec::new();
    proof {
        lemma_parsed_prefixed_empty(sp_blocks(evsV, i0));
        assert(blocks_view(out@) =~= Seq::<BlockV>::empty());
    }
    loop
        invariant
            i0 <= *pos as int <= evsV.len(),
            sp_blocks(evsV, i0) == parsed_prefixed(
                blocks_view(out@),
                sp_blocks(evsV, *pos as int),
            ),
        decreases evsV.len() - *pos as int,
    {
        let ghost i = *pos as int;
        let ghost outV = blocks_view(out@);
        proof {
            assert(blocks_view(out@) + Seq::<BlockV>::empty() =~= blocks_view(out@));
        }
        if *pos >= evs.len() {
            return Ok(out);
        }
        let e = &evs[*pos];
        *pos += 1;
        match e {
            Event::Start(tag) => match tag {
                Tag::Heading(l) => {
                    let level = *l;
                    match parse_inlines(evs, pos) {
                        Err(err) => {
                            proof {
                                assert(evsV[i] == e.deep_view());
                            }
                            return Err(err);
                        },
                        Ok(v) => {
                            let b = Block::Heading(level, v);
                            proof {
                                assert(evsV[i] == e.deep_view());
                                let inner = sp_inlines(evsV, i + 1);
                                assert(step(i, inner.next, evsV.len() as int) == inner.next);
                                lemma_blocks_view_push(out@, b);
                                lemma_parsed_prefixed_assoc(
                                    outV,
                                    seq![block_view(b)],
                                    sp_blocks(evsV, inner.next),
                                );
                            }
                            out.push(b);
                        },
                    }
                },
                Tag::Paragraph => {
                    match parse_inlines(evs, pos) {
                        Err(err) => {
                            proof {
                                assert(evsV[i] == e.deep_view());
                            }
                            return Err(err);
                        },
                        Ok(v) => {
                            let b = Block::Paragraph(v);
                            proof {
                                assert(evsV[i] == e.deep_view());
                                let inner = sp_inlines(evsV, i + 1);
                                assert(step(i, inner.next, evsV.len() as int) == inner.next);
                                lemma_blocks_view_push(out@, b);
                                lemma_parsed_prefixed_assoc(
                                    outV,
                                    seq![block_view(b)],
                                    sp_blocks(evsV, inner.next),
                                );
                            }
                            out.push(b);
                        },
                    }
                },
                Tag::BlockQuote => {
                    match parse_blocks(evs, pos) {
                        Err(err) => {
                            proof {
                                assert(evsV[i] == e.deep_view());
                            }
                            return Err(err);
                        },
                        Ok(v) => {
                            let b = Block::Quote(v);
                            proof {
                                assert(evsV[i] == e.deep_view());
                                let inner = sp_blocks(evsV, i + 1);
                                assert(step(i, inner.next, evsV.len() as int) == inner.next);
                                lemma_blocks_view_push(out@, b);
                                lemma_parsed_prefixed_assoc(
                                    outV,
                                    seq![block_view(b)],
                                    sp_blocks(evsV, inner.next),
                                );
                            }
                            out.push(b);
                        },
                    }
                },
                Tag::CodeBlock(kind) => {
                    let lang = match kind {
                        CodeKind::Indented => String::new(),
                        CodeKind::Fenced(l) => l.clone(),
                    };
                    match parse_text(evs, pos) {
                        Err(err) => {
                            proof {
                                assert(evsV[i] == e.deep_view());
                            }
                            return Err(err);
                        },
                        Ok(text) => {
                            let b = Block::Code(lang, text);
                            proof {
                                assert(evsV[i] == e.deep_view());
                                let inner = sp_text(evsV, i + 1);
                                assert(step(i, inner.next, evsV.len() as int) == inner.next);
                                lemma_blocks_view_push(out@, b);
                                lemma_parsed_prefixed_assoc(
                                    outV,
                                    seq![block_view(b)],
                                    sp_blocks(evsV, inner.next),
                                );
                            }
                            out.push(b);
                        },
                    }
                },
                Tag::List(first) => {
                    let t = if first.is_some() {
                        ListType::Numbered
                    } else {
                        ListType::Plain
                    };
                    match parse_list_items(evs, pos) {
                        Err(err) => {
                            proof {
                                assert(evsV[i] == e.deep_view());
                            }
                            return Err(err);
                        },
                        Ok(v) => {
                            let b = Block::List(t, v);
                            proof {
                                assert(evsV[i] == e.deep_view());
                                let inner = sp_items(evsV, i + 1);
                                assert(step(i, inner.next, evsV.len() as int) == inner.next);
                                lemma_blocks_view_push(out@, b);
                                lemma_parsed_prefixed_assoc(
                                    outV,
                                    seq![block_view(b)],
                                    sp_blocks(evsV, inner.next),
                                );
                            }
                            out.push(b);
                        },
                    }
                },
                _ => {
                    proof {
                        assert(evsV[i] == e.deep_view());
                    }
                    return Err(ParseError::UnexpectedElement { event: clone_event(e) });
                },
            },
            Event::End => {
                proof {
                    assert(evsV[i] == e.deep_view());
                }
                return Ok(out);
            },
            Event::Text(s) => {
                let first = Inline::Plain(s.clone());
                match parse_tight_paragraph(evs, pos) {
                    Err(err) => {
                        proof {
                            assert(evsV[i] == e.deep_view());
                        }
                        return Err(err);
                    },
                    Ok(mut v) => {
                        let ghost firstV = inline_view(first);
                        let ghost vV = v@;
                        let mut ins: Vec<Inline> = Vec::new();
                        ins.push(first);
                        ins.append(&mut v);
                        let b = Block::Paragraph(ins);
                        proof {
                            assert(evsV[i] == e.deep_view());
                            let s2 = b->Paragraph_0@;
                            assert(s2 =~= seq![b->Paragraph_0@[0]] + vV);
                            assert(s2.drop_first() =~= vV);
                            assert(inlines_view(s2) == seq![firstV] + inlines_view(vV));
                            let inner = sp_tight(evsV, i + 1);
                            assert(step(i, inner.next, evsV.len() as int) == inner.next);
                            lemma_blocks_view_push(out@, b);
                            lemma_parsed_prefixed_assoc(
                                outV,
                                seq![block_view(b)],
                                sp_blocks(evsV, inner.next),
                            );
                        }
                        out.push(b);
                    },
                }
            },
            Event::Rule => {
                proof {
                    assert(evsV[i] == e.deep_view());
                    lemma_blocks_view_push(out@, Block::Rule);
                    lemma_parsed_prefixed_assoc(
                        outV,
                        seq![BlockV::Rule],
                        sp_blocks(evsV, i + 1),
                    );
                }
                out.push(Block::Rule);
            },
            _ => {
                proof {
                    assert(evsV[i] == e.deep_view());
                }
                return Err(ParseError::UnexpectedElement { event: clone_event(e) });
            },
        }
    }
}

/// The markdown dialect, as a parser and a renderer.
pub struct Markdown;

impl Markdown {
    /// Parses a text into a document: the text is tokenized, and the event
    /// stream is read by the grammar above, starting at the first event.
    pub fn parse(s: &str) -> (r: Result<Nodo, ParseError>)
        ensures
            ({
                let p = sp_blocks(events_of(s@), 0);
                match (r, p.res) {
                    (Ok(n), Ok(bs)) => n@ == bs,
                    (Err(e), Err(pe)) => e@ == pe,
                    _ => false,
                }
            }),
    {
        let evs = tokenize(s);
        let mut pos: usize = 0;
        match parse_blocks(&evs, &mut pos) {
            Ok(blocks) => Ok(Nodo { blocks }),
            Err(e) => Err(e),
        }
    }
}

impl crate::Parse for Markdown {
    type ParseError = ParseError;

    fn parse(s: &str) -> Result<Nodo, ParseError> {
        Markdown::parse(s)
    }
}

} // verus!
