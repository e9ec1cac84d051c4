use mumble_sentences::error::ErrorKind;
use mumble_sentences::markdown::{
    extract_text_blocks, extract_text_blocks_from_events, FragmentContent, MarkdownEvent,
    MarkdownTag, TextBlock,
};

#[test]
fn extract_text_blocks_can_extract_from_plain_text() {
    let input = "simple text";
    assert_eq!(extract_text_blocks(input).unwrap(), vec![
        TextBlock::Text(vec![
            (FragmentContent::Text("simple text".to_string()), 0..11),
        ]),
    ]);
}

#[test]
fn extract_text_blocks_can_extract_from_text_including_html_node() {
    let input = "<unnamed> panicked at";
    assert_eq!(extract_text_blocks(input).unwrap(), vec![
        TextBlock::Text(vec![
            (FragmentContent::Code("<unnamed>".to_string()), 0..9),
            (FragmentContent::Text(" panicked at".to_string()), 9..21),
        ]),
    ]);
}

#[test]
fn paragraph_break_gives_two_blocks() {
    assert_eq!(extract_text_blocks("A\n\nB").unwrap(), vec![
        TextBlock::Text(vec![(FragmentContent::Text("A".to_string()), 0..1)]),
        TextBlock::Text(vec![(FragmentContent::Text("B".to_string()), 3..4)]),
    ]);
}

#[test]
fn fenced_code_block_keeps_language_and_range() {
    let input = "```rust\nfn x(){}\n```";
    assert_eq!(extract_text_blocks(input).unwrap(), vec![
        TextBlock::Code {
            language: Some("rust".to_string()),
            code: "fn x(){}\n".to_string(),
            range: 0..20,
        },
    ]);
}

#[test]
fn soft_break_is_a_line_feed_in_the_text() {
    assert_eq!(extract_text_blocks("a\nb").unwrap(), vec![
        TextBlock::Text(vec![(FragmentContent::Text("a\nb".to_string()), 0..3)]),
    ]);
}

#[test]
fn hard_break_splits_a_paragraph() {
    assert_eq!(extract_text_blocks("a  \nb").unwrap(), vec![
        TextBlock::Text(vec![(FragmentContent::Text("a".to_string()), 0..1)]),
        TextBlock::Text(vec![(FragmentContent::Text("b".to_string()), 4..5)]),
    ]);
}

#[test]
fn list_items_are_blocks() {
    assert_eq!(extract_text_blocks("- a\n- b").unwrap(), vec![
        TextBlock::Text(vec![(FragmentContent::Text("a".to_string()), 2..3)]),
        TextBlock::Text(vec![(FragmentContent::Text("b".to_string()), 6..7)]),
    ]);
}

#[test]
fn link_text_is_merged_with_the_text_around() {
    assert_eq!(extract_text_blocks("see [here](http://x.y) now").unwrap(), vec![
        TextBlock::Text(vec![(FragmentContent::Text("see here now".to_string()), 0..26)]),
    ]);
}

#[test]
fn empty_link_stands_for_its_url() {
    assert_eq!(extract_text_blocks("<http://x.y>").unwrap(), vec![
        TextBlock::Text(vec![(FragmentContent::Text("http://x.y".to_string()), 1..11)]),
    ]);
    assert_eq!(extract_text_blocks("[](http://x.y)").unwrap(), vec![
        TextBlock::Text(vec![(FragmentContent::Url("http://x.y".to_string()), 0..14)]),
    ]);
}

#[test]
fn empty_link_with_a_title_stands_for_the_title() {
    assert_eq!(extract_text_blocks("[](http://x.y \"T\")").unwrap(), vec![
        TextBlock::Text(vec![(FragmentContent::Text("T".to_string()), 0..18)]),
    ]);
}

#[test]
fn strikethrough_content_is_dropped() {
    assert_eq!(extract_text_blocks("a ~~b~~ c").unwrap(), vec![
        TextBlock::Text(vec![(FragmentContent::Text("a  c".to_string()), 0..9)]),
    ]);
}

#[test]
fn emphasis_is_ignored() {
    assert_eq!(extract_text_blocks("a *b* **c**").unwrap(), vec![
        TextBlock::Text(vec![(FragmentContent::Text("a b c".to_string()), 0..9)]),
    ]);
}

#[test]
fn heading_is_an_invalid_context() {
    let e = extract_text_blocks("# Title").unwrap_err();
    assert_eq!(e.error_kind(), ErrorKind::InvalidContext);
}

#[test]
fn item_end_in_blank_is_an_invalid_context() {
    let events = vec![(MarkdownEvent::End(MarkdownTag::Item), 0..1)];
    let e = extract_text_blocks_from_events(events).unwrap_err();
    assert_eq!(e.error_kind(), ErrorKind::InvalidContext);
}

#[test]
fn unterminated_paragraph_is_an_invalid_context() {
    let events = vec![
        (MarkdownEvent::Start(MarkdownTag::Paragraph), 0..1),
        (MarkdownEvent::Text("a".to_string()), 0..1),
    ];
    let e = extract_text_blocks_from_events(events).unwrap_err();
    assert_eq!(e.error_kind(), ErrorKind::InvalidContext);
}

#[test]
fn code_block_without_code_is_invalid_data() {
    let events = vec![
        (MarkdownEvent::Start(MarkdownTag::CodeBlock(None)), 0..4),
        (MarkdownEvent::End(MarkdownTag::CodeBlock(None)), 0..4),
    ];
    let e = extract_text_blocks_from_events(events).unwrap_err();
    assert_eq!(e.error_kind(), ErrorKind::InvalidData);
}

#[test]
fn code_block_with_two_texts_is_an_invalid_context() {
    let events = vec![
        (MarkdownEvent::Start(MarkdownTag::CodeBlock(None)), 0..4),
        (MarkdownEvent::Text("a".to_string()), 0..1),
        (MarkdownEvent::Text("b".to_string()), 1..2),
    ];
    let e = extract_text_blocks_from_events(events).unwrap_err();
    assert_eq!(e.error_kind(), ErrorKind::InvalidContext);
}

#[test]
fn events_give_coalesced_fragments() {
    let events = vec![
        (MarkdownEvent::Start(MarkdownTag::Paragraph), 0..9),
        (MarkdownEvent::Text("a".to_string()), 0..1),
        (MarkdownEvent::Text("b".to_string()), 1..2),
        (MarkdownEvent::Code("c".to_string()), 2..5),
        (MarkdownEvent::Text("d".to_string()), 5..6),
        (MarkdownEvent::End(MarkdownTag::Paragraph), 0..9),
    ];
    assert_eq!(extract_text_blocks_from_events(events).unwrap(), vec![
        TextBlock::Text(vec![
            (FragmentContent::Text("ab".to_string()), 0..2),
            (FragmentContent::Code("c".to_string()), 2..5),
            (FragmentContent::Text("d".to_string()), 5..6),
        ]),
    ]);
}

#[test]
fn fragment_content_accessors() {
    let t = FragmentContent::Text("x".to_string());
    let c = FragmentContent::Code("y".to_string());
    let u = FragmentContent::Url("z".to_string());
    assert!(t.is_text());
    assert!(!c.is_text());
    assert!(!u.is_text());
    assert_eq!(t.text(), "x");
    assert_eq!(c.text(), "y");
    assert_eq!(u.text(), "z");
}

#[test]
fn error_description_names_the_kind() {
    let e = extract_text_blocks("# Title").unwrap_err();
    assert!(e.describe().starts_with("Invalid context: "));
    assert!(e.describe().ends_with(e.message().as_str()));
}
