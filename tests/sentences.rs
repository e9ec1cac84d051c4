use mumble_sentences::markdown::{extract_text_blocks, FragmentContent, TextBlock};
use mumble_sentences::text::extract_sentences;

fn sentences_of(input: &str) -> Vec<Vec<(String, std::ops::Range<usize>)>> {
    extract_text_blocks(input)
        .unwrap()
        .iter()
        .map(|b| extract_sentences(b))
        .collect()
}

fn s(text: &str, range: std::ops::Range<usize>) -> (String, std::ops::Range<usize>) {
    (text.to_string(), range)
}

fn text_block(fragments: Vec<(FragmentContent, std::ops::Range<usize>)>) -> TextBlock {
    TextBlock::Text(fragments)
}

fn text(t: &str) -> FragmentContent {
    FragmentContent::Text(t.to_string())
}

fn code(t: &str) -> FragmentContent {
    FragmentContent::Code(t.to_string())
}

#[test]
fn simple_text_is_one_sentence() {
    assert_eq!(sentences_of("simple text"), vec![vec![s("simple text", 0..11)]]);
}

#[test]
fn html_and_text_make_one_sentence() {
    assert_eq!(
        sentences_of("<unnamed> panicked at"),
        vec![vec![s("<unnamed> panicked at", 0..21)]],
    );
}

#[test]
fn period_and_exclamation_end_sentences() {
    assert_eq!(
        sentences_of("Hello. World!"),
        vec![vec![s("Hello.", 0..6), s("World!", 7..13)]],
    );
}

#[test]
fn period_before_a_letter_does_not_end_a_sentence() {
    // the period inside "e.g" is followed by a letter and stays; the one
    // after it is followed by a space and ends the sentence
    assert_eq!(
        sentences_of("See e.g. foo."),
        vec![vec![s("See e.g.", 0..8), s("foo.", 9..13)]],
    );
    assert_eq!(sentences_of("See e.g.foo."), vec![vec![s("See e.g.foo.", 0..12)]]);
}

#[test]
fn paragraphs_are_segmented_apart() {
    assert_eq!(sentences_of("A\n\nB"), vec![vec![s("A", 0..1)], vec![s("B", 3..4)]]);
}

#[test]
fn code_block_is_one_sentence() {
    assert_eq!(
        sentences_of("```rust\nfn x(){}\n```"),
        vec![vec![s("fn x(){}\n", 0..20)]],
    );
}

#[test]
fn code_block_sentence_equals_the_block() {
    let block = TextBlock::Code { language: None, code: "a. b".to_string(), range: 3..9 };
    assert_eq!(extract_sentences(&block), vec![s("a. b", 3..9)]);
}

#[test]
fn whitespace_runs_collapse_to_one_space() {
    let block = text_block(vec![(text("a  \t b"), 0..6)]);
    assert_eq!(extract_sentences(&block), vec![s("a b", 0..6)]);
}

#[test]
fn leading_whitespace_is_dropped() {
    let block = text_block(vec![(text("  a"), 0..3)]);
    assert_eq!(extract_sentences(&block), vec![s("a", 2..3)]);
}

#[test]
fn trailing_whitespace_stays_in_the_last_sentence() {
    let block = text_block(vec![(text("a  "), 0..3)]);
    assert_eq!(extract_sentences(&block), vec![s("a ", 0..3)]);
}

#[test]
fn trailing_whitespace_after_a_break_adds_no_sentence() {
    let block = text_block(vec![(text("a. b!  "), 0..7)]);
    assert_eq!(extract_sentences(&block), vec![s("a.", 0..2), s("b!", 3..5)]);
}

#[test]
fn whitespace_before_a_final_period_is_dropped() {
    let block = text_block(vec![(text("a . b"), 0..5)]);
    assert_eq!(extract_sentences(&block), vec![s("a.", 0..3), s("b", 4..5)]);
}

#[test]
fn whitespace_before_a_period_stays_when_no_break() {
    let block = text_block(vec![(text("a .b"), 0..4)]);
    assert_eq!(extract_sentences(&block), vec![s("a .b", 0..4)]);
}

#[test]
fn period_at_the_end_of_a_block_ends_the_sentence() {
    let block = text_block(vec![(text("a ."), 0..3)]);
    assert_eq!(extract_sentences(&block), vec![s("a.", 0..3)]);
}

#[test]
fn terminator_after_whitespace_drops_the_whitespace() {
    let block = text_block(vec![(text("a ? b"), 0..5)]);
    assert_eq!(extract_sentences(&block), vec![s("a?", 0..3), s("b", 4..5)]);
}

#[test]
fn semicolon_and_wide_terminators_end_sentences() {
    let block = text_block(vec![(text("a;b\u{3002}c\u{FF01}d\u{FF1F}"), 0..14)]);
    assert_eq!(
        extract_sentences(&block),
        vec![
            s("a;", 0..2),
            s("b\u{3002}", 2..4),
            s("c\u{FF01}", 4..6),
            s("d\u{FF1F}", 6..8),
        ],
    );
}

#[test]
fn inline_code_is_never_split() {
    let block = text_block(vec![(text("run "), 0..4), (code("a. b!"), 4..11), (text(" now."), 11..16)]);
    assert_eq!(extract_sentences(&block), vec![s("run a. b! now.", 0..16)]);
}

#[test]
fn pending_period_before_code_is_kept() {
    let block = text_block(vec![(text("x."), 0..2), (code("y"), 2..5)]);
    assert_eq!(extract_sentences(&block), vec![s("x.y", 0..3)]);
}

#[test]
fn pending_whitespace_before_code_is_kept() {
    let block = text_block(vec![(text("x  "), 0..3), (code("y"), 3..6)]);
    assert_eq!(extract_sentences(&block), vec![s("x y", 0..4)]);
}

#[test]
fn code_range_counts_characters() {
    let block = text_block(vec![(code("\u{3042}\u{3044}"), 0..8)]);
    assert_eq!(extract_sentences(&block), vec![s("\u{3042}\u{3044}", 0..2)]);
}

#[test]
fn url_fragment_is_opaque() {
    let block = text_block(vec![(FragmentContent::Url("http://a.b/c?d".to_string()), 0..14)]);
    assert_eq!(extract_sentences(&block), vec![s("http://a.b/c?d", 0..14)]);
}

#[test]
fn empty_block_has_no_sentence() {
    assert_eq!(extract_sentences(&text_block(vec![])), vec![]);
    assert_eq!(extract_sentences(&text_block(vec![(text("   "), 0..3)])), vec![]);
}

#[test]
fn segmenting_twice_gives_the_same_sentences() {
    let input = "One. Two? `three.` four";
    assert_eq!(sentences_of(input), sentences_of(input));
}
