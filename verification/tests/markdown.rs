use nodo::events::{CodeKind, Event, Tag};
use nodo::markdown::{parse_blocks, Markdown, ParseError};
use nodo::{Block, Inline, Parse, Render};

#[test]
fn parse_and_write() {
    let md = "# a *header* with **bold** and ~~strikethrough~~

a + b

- a list
- more list

    - nested list item

a split
paragraph

1. a numbered list

    1. a sub numbered list
2. a second number

- [] a task looking item
- [ ] an incomplete task list
- [x] an complete task list

    paragraph

    - [ ] a sub task

        another paragraph

```rust
some code {
    echo
}
```";
    let nodo = Markdown::parse(md).unwrap();

    let out = Markdown::render(&nodo);

    assert_eq!(md, out, "{:?}", nodo)
}

#[test]
fn roundtrip_scenario() {
    let md = "# a *header* with **bold** and ~~strikethrough~~\n\na + b\n\n- a list\n- more list\n\n    - nested list item\n\n1. a numbered list\n\n    1. a sub numbered list\n2. a second number\n\n- [ ] an incomplete task list\n- [x] an complete task list\n\n```rust\nsome code {\n    echo\n}\n```";
    let nodo = Markdown::parse(md).expect("the document is inside the supported dialect");
    let out = Markdown::render(&nodo);
    assert_eq!(md, out, "{:?}", nodo);
}

#[test]
fn reparse_gives_equal_tree() {
    let md = "# head\n\n*a* b `c`\n\n- one\n- two";
    let first = Markdown::parse(md).unwrap();
    let rendered = Markdown::render(&first);
    let second = Markdown::parse(&rendered).unwrap();
    assert_eq!(first, second);
}

#[test]
fn deep_emphasis_roundtrip() {
    let md = "*a **b ~~c~~ d** e*";
    let nodo = Markdown::parse(md).unwrap();
    let out = Markdown::render(&nodo);
    assert_eq!(md, out, "{:?}", nodo);
}

#[test]
fn triple_emphasis_roundtrip() {
    let md = "***a***";
    let nodo = Markdown::parse(md).unwrap();
    let out = Markdown::render(&nodo);
    assert_eq!(md, out, "{:?}", nodo);
}

#[test]
fn unsupported_construct_is_rejected() {
    // A raw HTML block is outside the supported dialect.
    let md = "<div>\nhello\n</div>";
    match Markdown::parse(md) {
        Err(ParseError::UnexpectedElement { .. }) => {}
        other => panic!("expected UnexpectedElement, got {:?}", other),
    }
}

#[test]
fn empty_code_block_roundtrip() {
    let md = "```\n```";
    let nodo = Markdown::parse(md).unwrap();
    let out = Markdown::render(&nodo);
    assert_eq!(md, out, "{:?}", nodo);
}

#[test]
fn quote_roundtrip() {
    let md = "> quoted words";
    let nodo = Markdown::parse(md).unwrap();
    let out = Markdown::render(&nodo);
    assert_eq!(md, out, "{:?}", nodo);
}

#[test]
fn rule_roundtrip() {
    let md = "a\n\n---\n\nb";
    let nodo = Markdown::parse(md).unwrap();
    let out = Markdown::render(&nodo);
    assert_eq!(md, out, "{:?}", nodo);
}

#[test]
fn code_block_wants_text_only() {
    let evs = vec![
        Event::Start(Tag::CodeBlock(CodeKind::Fenced(String::from("rust")))),
        Event::Rule,
    ];
    let mut pos = 0usize;
    match parse_blocks(&evs, &mut pos) {
        Err(ParseError::NoText { event }) => assert_eq!(event, Event::Rule),
        other => panic!("expected NoText, got {:?}", other),
    }
}

#[test]
fn code_block_wants_single_text() {
    let evs = vec![
        Event::Start(Tag::CodeBlock(CodeKind::Indented)),
        Event::Text(String::from("one")),
        Event::Text(String::from("two")),
    ];
    let mut pos = 0usize;
    match parse_blocks(&evs, &mut pos) {
        Err(ParseError::ExpectedEnd { event }) => {
            assert_eq!(event, Event::Text(String::from("two")))
        }
        other => panic!("expected ExpectedEnd, got {:?}", other),
    }
}

#[test]
fn task_marker_outside_lists_is_rejected() {
    let evs = vec![Event::TaskListMarker(true)];
    let mut pos = 0usize;
    match parse_blocks(&evs, &mut pos) {
        Err(ParseError::UnexpectedElement { event }) => {
            assert_eq!(event, Event::TaskListMarker(true))
        }
        other => panic!("expected UnexpectedElement, got {:?}", other),
    }
}

#[test]
fn unsupported_tag_is_rejected() {
    let evs = vec![Event::Start(Tag::Unsupported)];
    let mut pos = 0usize;
    match parse_blocks(&evs, &mut pos) {
        Err(ParseError::UnexpectedElement { event }) => {
            assert_eq!(event, Event::Start(Tag::Unsupported))
        }
        other => panic!("expected UnexpectedElement, got {:?}", other),
    }
}

#[test]
fn events_parse_to_blocks() {
    let evs = vec![
        Event::Start(Tag::Heading(2)),
        Event::Text(String::from("title")),
        Event::End,
        Event::Rule,
    ];
    let mut pos = 0usize;
    let blocks = parse_blocks(&evs, &mut pos).unwrap();
    assert_eq!(
        blocks,
        vec![
            Block::Heading(2, vec![Inline::Plain(String::from("title"))]),
            Block::Rule,
        ]
    );
    assert_eq!(pos, 4);
}

#[test]
fn link_and_image_render() {
    let evs = vec![
        Event::Start(Tag::Paragraph),
        Event::Start(Tag::Link(String::from("text"), String::from("url"))),
        Event::End,
        Event::Text(String::from(" and ")),
        Event::Start(Tag::Image(String::from("alt"), String::from("pic"))),
        Event::End,
        Event::End,
    ];
    let mut pos = 0usize;
    let blocks = parse_blocks(&evs, &mut pos).unwrap();
    let nodo = nodo::Nodo { blocks };
    assert_eq!(Markdown::render(&nodo), "[text](url) and ![alt](pic)");
}

#[test]
fn hard_break_roundtrip() {
    let md = "left  \nright";
    let nodo = Markdown::parse(md).unwrap();
    // a hard break re-renders as a blank line in this dialect
    assert_eq!(Markdown::render(&nodo), "left\n\nright");
}

#[test]
fn long_numbered_list_renders_two_digit_markers() {
    let mut evs = vec![Event::Start(Tag::List(Some(1)))];
    for word in [
        "a", "b", "c", "d", "e", "f", "g", "h", "i", "j", "k", "l",
    ] {
        evs.push(Event::Start(Tag::Item));
        evs.push(Event::Text(String::from(word)));
        evs.push(Event::End);
    }
    evs.push(Event::End);
    let mut pos = 0usize;
    let blocks = parse_blocks(&evs, &mut pos).unwrap();
    let out = Markdown::render(&nodo::Nodo { blocks });
    assert!(out.starts_with("1. a\n2. b\n"));
    assert!(out.ends_with("11. k\n12. l"));
}

#[test]
fn soft_break_keeps_list_prefix() {
    let md = "- first line\nsecond line";
    let nodo = Markdown::parse(md).unwrap();
    let out = Markdown::render(&nodo);
    // the wrapped line is pulled into the item's own indentation
    assert_eq!(out, "- first line\n    second line");
}

#[test]
fn trait_interfaces_agree_with_inherent_ones() {
    let md = "# plain *title*";
    let via_trait = <Markdown as Parse>::parse(md).unwrap();
    let direct = Markdown::parse(md).unwrap();
    assert_eq!(via_trait, direct);
    let rendered = <Markdown as Render>::render(&via_trait).unwrap();
    assert_eq!(rendered, Markdown::render(&direct));
}

#[test]
fn list_after_paragraph_keeps_tight_formatting() {
    // Inside an item, the blank line that would follow a list directly after
    // a paragraph is suppressed at a non-root prefix.
    let evs = vec![
        Event::Start(Tag::List(None)),
        Event::Start(Tag::Item),
        Event::Start(Tag::Paragraph),
        Event::Text(String::from("p")),
        Event::End,
        Event::Start(Tag::List(None)),
        Event::Start(Tag::Item),
        Event::Text(String::from("x")),
        Event::End,
        Event::End,
        Event::Start(Tag::Paragraph),
        Event::Text(String::from("q")),
        Event::End,
        Event::End,
        Event::End,
    ];
    let mut pos = 0usize;
    let blocks = parse_blocks(&evs, &mut pos).unwrap();
    let out = Markdown::render(&nodo::Nodo { blocks });
    assert_eq!(out, "- p\n\n    - xq");
}
