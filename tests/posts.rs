use mumble_sentences::error::ErrorKind;
use mumble_sentences::openai::{embedding_request, posts_embedding_request};
use mumble_sentences::posts::{split_post_into_sentences, Post, PostSentence, PostSource};

fn post(content: &str, source: Option<&str>) -> Post {
    Post {
        id: "https://example.com/posts/abc".to_string(),
        type_: "Note".to_string(),
        content: content.to_string(),
        published: "2023-01-01T00:00:00Z".to_string(),
        source: source.map(|s| PostSource {
            content: s.to_string(),
            media_type: "text/markdown".to_string(),
        }),
    }
}

#[test]
fn sentence_id_holds_post_id_and_range() {
    let s = PostSentence {
        post_id: "https://example.com/posts/abc".to_string(),
        content: "Hello.".to_string(),
        range: 0..6,
    };
    assert_eq!(s.id(), "https://example.com/posts/abc#0-6");
    let t = PostSentence { post_id: "p".to_string(), content: "x".to_string(), range: 120..1305 };
    assert_eq!(t.id(), "p#120-1305");
}

#[test]
fn post_is_split_into_sentences_of_its_blocks() {
    let sentences = split_post_into_sentences(post("Hello. World!\n\nNext", None)).unwrap();
    let got: Vec<(String, String, std::ops::Range<usize>)> = sentences
        .into_iter()
        .map(|s| (s.post_id, s.content, s.range))
        .collect();
    let id = "https://example.com/posts/abc".to_string();
    assert_eq!(got, vec![
        (id.clone(), "Hello.".to_string(), 0..6),
        (id.clone(), "World!".to_string(), 7..13),
        (id, "Next".to_string(), 15..19),
    ]);
}

#[test]
fn post_source_is_preferred_to_content() {
    let sentences =
        split_post_into_sentences(post("<p>html</p>", Some("from *source*"))).unwrap();
    let got: Vec<String> = sentences.into_iter().map(|s| s.content).collect();
    assert_eq!(got, vec!["from source".to_string()]);
}

#[test]
fn post_with_a_heading_fails() {
    let e = split_post_into_sentences(post("# Title", None)).err().unwrap();
    assert_eq!(e.error_kind(), ErrorKind::InvalidContext);
}

#[test]
fn empty_post_has_no_sentence() {
    assert_eq!(split_post_into_sentences(post("", None)).unwrap().len(), 0);
}

#[test]
fn request_embeds_the_contents_in_order() {
    let sentences = vec![
        PostSentence { post_id: "a".to_string(), content: "one".to_string(), range: 0..3 },
        PostSentence { post_id: "a".to_string(), content: "two".to_string(), range: 4..7 },
    ];
    let request = embedding_request(&sentences);
    assert_eq!(request.model, "text-embedding-ada-002");
    assert_eq!(request.input, vec!["one".to_string(), "two".to_string()]);
    assert_eq!(request.user, Some("mumble_embedding".to_string()));
}

#[test]
fn request_embeds_the_texts_of_posts() {
    let posts = vec![post("plain", None), post("<p>x</p>", Some("markdown"))];
    let request = posts_embedding_request(&posts);
    assert_eq!(request.model, "text-embedding-ada-002");
    assert_eq!(request.input, vec!["plain".to_string(), "markdown".to_string()]);
    assert_eq!(request.user, Some("mumble_embedding".to_string()));
}
