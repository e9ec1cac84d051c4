//! Bodies of the embedding API.

use vstd::prelude::*;

use crate::posts::{post_text, Post, PostSentence};

verus! {

/// Request body for embedding.
pub struct EmbeddingRequestBody {
    /// Model.
    pub model: String,
    /// Input texts.
    pub input: Vec<String>,
    /// Optional end-user ID.
    pub user: Option<String>,
}

/// API usage.
pub struct Usage {
    pub prompt_tokens: u64,
    pub total_tokens: u64,
}

/// Model that embeds the sentences.
pub open spec fn embedding_model() -> Seq<char> {
    "text-embedding-ada-002"@
}

/// End-user ID sent with the requests.
pub open spec fn embedding_user() -> Seq<char> {
    "mumble_embedding"@
}

/// Builds the request that embeds the contents of sentences, in order.
pub fn embedding_request(sentences: &Vec<PostSentence>) -> (r: EmbeddingRequestBody)
    ensures
        r.model@ == embedding_model(),
        r.user matches Some(u) && u@ == embedding_user(),
        r.input@.len() == sentences@.len(),
        forall|i: int| 0 <= i < sentences@.len() ==> #[trigger] r.input@[i]@ == sentences@[i].content@,
{
    let mut input: Vec<String> = Vec::new();
    let mut i: usize = 0;
    while i < sentences.len()
        invariant
            i <= sentences.len(),
            input@.len() == i,
            forall|j: int| 0 <= j < i ==> #[trigger] input@[j]@ == sentences@[j].content@,
        decreases sentences.len() - i,
    {
        input.push(sentences[i].content.clone());
        i = i + 1;
    }
    EmbeddingRequestBody {
        model: String::from_str("text-embedding-ada-002"),
        input,
        user: Some(String::from_str("mumble_embedding")),
    }
}

/// Builds the request that embeds the Markdown texts of posts, in order:
/// each post's source if it has one, else its content.
pub fn posts_embedding_request(posts: &Vec<Post>) -> (r: EmbeddingRequestBody)
    ensures
        r.model@ == embedding_model(),
        r.user matches Some(u) && u@ == embedding_user(),
        r.input@.len() == posts@.len(),
        forall|i: int| 0 <= i < posts@.len() ==> #[trigger] r.input@[i]@ == post_text(posts@[i]),
{
    let mut input: Vec<String> = Vec::new();
    let mut i: usize = 0;
    while i < posts.len()
        invariant
            i <= posts.len(),
            input@.len() == i,
            forall|j: int| 0 <= j < i ==> #[trigger] input@[j]@ == post_text(posts@[j]),
        decreases posts.len() - i,
    {
        let post = &posts[i];
        let text = match &post.source {
            Some(source) => source.content.clone(),
            None => post.content.clone(),
        };
        input.push(text);
        i = i + 1;
    }
    EmbeddingRequestBody {
        model: String::from_str("text-embedding-ada-002"),
        input,
        user: Some(String::from_str("mumble_embedding")),
    }
}

} // verus!
