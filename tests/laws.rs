use mumble_sentences::markdown::{extract_text_blocks, FragmentContent, TextBlock};
use mumble_sentences::text::extract_sentences;

const DOC: &str = "First one. Then `code. here` and more!  Why? Done .\n\n- item. two\n";

#[test]
fn sentences_lie_in_their_block_in_order() {
    for block in extract_text_blocks(DOC).unwrap() {
        let (lo, hi) = match &block {
            TextBlock::Text(fs) => (fs[0].1.start, fs[fs.len() - 1].1.end),
            TextBlock::Code { range, .. } => (range.start, range.end),
        };
        let sentences = extract_sentences(&block);
        for (_, r) in &sentences {
            assert!(lo <= r.start && r.start <= r.end && r.end <= hi);
        }
        for w in sentences.windows(2) {
            assert!(w[0].1.end <= w[1].1.start);
        }
    }
}

#[test]
fn no_sentence_is_empty() {
    for block in extract_text_blocks(DOC).unwrap() {
        for (s, _) in extract_sentences(&block) {
            assert!(!s.is_empty());
        }
    }
}

#[test]
fn code_stays_whole_in_one_sentence() {
    let blocks = extract_text_blocks(DOC).unwrap();
    let sentences = extract_sentences(&blocks[0]);
    assert_eq!(sentences.iter().filter(|(s, _)| s.contains("code. here")).count(), 1);
}

#[test]
fn no_two_text_fragments_are_adjacent() {
    for block in extract_text_blocks("a *b* `c` d [e](f) g\nh").unwrap() {
        if let TextBlock::Text(fs) = block {
            for w in fs.windows(2) {
                assert!(!(w[0].0.is_text() && w[1].0.is_text()));
            }
        }
    }
}

#[test]
fn trailing_whitespace_adds_no_sentence() {
    let plain = TextBlock::Text(vec![(FragmentContent::Text("a. b".to_string()), 0..4)]);
    let padded = TextBlock::Text(vec![
        (FragmentContent::Text("a. b".to_string()), 0..4),
        (FragmentContent::Code("c".to_string()), 4..7),
        (FragmentContent::Text(" \t ".to_string()), 7..10),
    ]);
    assert_eq!(extract_sentences(&plain).len(), 2);
    assert_eq!(extract_sentences(&padded).len(), 2);
}

#[test]
fn content_is_kept_but_for_whitespace() {
    for block in extract_text_blocks(DOC).unwrap() {
        if let TextBlock::Text(fs) = &block {
            let input: String = fs.iter().map(|(c, _)| c.text().clone()).collect();
            let output: String = extract_sentences(&block).into_iter().map(|(s, _)| s).collect();
            let strip = |s: &str| s.chars().filter(|c| !c.is_ascii_whitespace()).collect::<String>();
            assert_eq!(strip(&input), strip(&output));
        }
    }
}

#[test]
fn extraction_is_repeatable() {
    assert_eq!(extract_text_blocks(DOC).unwrap(), extract_text_blocks(DOC).unwrap());
}
