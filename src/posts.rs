//! Posts and their sentences.

use core::ops::Range;
use vstd::prelude::*;

use crate::error::{Error, ErrorKind};
use crate::markdown::{blocks_view, extract_text_blocks, text_blocks_of, BlockView, TextBlock};
use crate::text::{
    block_fits, block_sentences, extract_sentences, sentence_view, sentences_view, SentenceView,
};

verus! {

/// Post.
pub struct Post {
    /// ID.
    pub id: String,
    /// Type.
    pub type_: String,
    /// Contents.
    pub content: String,
    /// Publication date.
    pub published: String,
    /// Source.
    pub source: Option<PostSource>,
}

/// Source of a post.
pub struct PostSource {
    /// Content.
    pub content: String,
    /// MIME type.
    pub media_type: String,
}

/// Sentence in a post.
pub struct PostSentence {
    /// ID of the source post.
    pub post_id: String,
    /// Content.
    pub content: String,
    /// Range in the post.
    pub range: Range<usize>,
}

/// A post sentence: the post's ID, the text and the range `[start, end)`.
pub type PostSentenceView = (Seq<char>, Seq<char>, int, int);

impl View for PostSentence {
    type V = PostSentenceView;

    open spec fn view(&self) -> PostSentenceView {
        (self.post_id@, self.content@, self.range.start as int, self.range.end as int)
    }
}

pub open spec fn post_sentences_view(ss: Seq<PostSentence>) -> Seq<PostSentenceView> {
    ss.map_values(|s: PostSentence| s@)
}

/// The Markdown text of a post: its source if it has one, else its content.
pub open spec fn post_text(post: Post) -> Seq<char> {
    match post.source {
        Some(source) => source.content@,
        None => post.content@,
    }
}

/// Decimal digit of `d`, which is below 10.
pub open spec fn digit(d: nat) -> char {
    seq!['0', '1', '2', '3', '4', '5', '6', '7', '8', '9'][d as int]
}

/// Decimal representation of `n`, without leading zeros.
pub open spec fn decimal(n: nat) -> Seq<char>
    decreases n,
{
    if n < 10 {
        seq![digit(n)]
    } else {
        decimal(n / 10).push(digit(n % 10))
    }
}

/// ID of a sentence: `<post id>#<start>-<end>`.
pub open spec fn sentence_id(post_id: Seq<char>, start: nat, end: nat) -> Seq<char> {
    post_id + seq!['#'] + decimal(start) + seq!['-'] + decimal(end)
}

/// Relies on the `Display` of `usize`: its decimal representation.
#[verifier::external_body]
fn decimal_string(n: usize) -> (r: String)
    ensures
        r@ == decimal(n as nat),
{
    n.to_string()
}

impl PostSentence {
    /// Returns the ID of the sentence.
    pub fn id(&self) -> (r: String)
        ensures
            r@ == sentence_id(self.post_id@, self.range.start as nat, self.range.end as nat),
    {
        proof {
            reveal_strlit("#");
            reveal_strlit("-");
        }
        let mut id = self.post_id.clone();
        id.append("#");
        id.append(decimal_string(self.range.start).as_str());
        id.append("-");
        id.append(decimal_string(self.range.end).as_str());
        id
    }
}

/// Sentences of text blocks, block after block.
pub open spec fn sentences_of_blocks(bs: Seq<BlockView>) -> Seq<SentenceView>
    decreases bs.len(),
{
    if bs.len() == 0 {
        seq![]
    } else {
        sentences_of_blocks(bs.drop_last()) + block_sentences(bs.last())
    }
}

/// Every block leaves room for the positions of its sentences.
pub open spec fn blocks_fit(bs: Seq<BlockView>) -> bool {
    forall|i: int| 0 <= i < bs.len() ==> block_fits(#[trigger] bs[i])
}

/// Tags sentences with the ID of their post.
pub open spec fn tag_sentences(post_id: Seq<char>, ss: Seq<SentenceView>) -> Seq<PostSentenceView> {
    ss.map_values(|s: SentenceView| (post_id, s.0, s.1, s.2))
}

/// What splitting a post gives: the sentences of its text blocks, or the
/// kind of error.
pub open spec fn split_post(post: Post) -> Result<Seq<PostSentenceView>, ErrorKind> {
    match text_blocks_of(post_text(post)) {
        Ok(bs) => if blocks_fit(bs) {
            Ok(tag_sentences(post.id@, sentences_of_blocks(bs)))
        } else {
            Err(ErrorKind::InvalidData)
        },
        Err(k) => Err(k),
    }
}

/// Splitting depends on the post's ID and Markdown text alone: splitting
/// the same post twice, or two posts that agree on them, gives the same
/// result.
pub proof fn lemma_split_deterministic(first: Post, second: Post)
    requires
        first.id@ == second.id@,
        post_text(first) == post_text(second),
    ensures
        split_post(first) == split_post(second),
{
}

// Tells if the positions of a block fit in `usize` while it is segmented.
fn fits(block: &TextBlock) -> (r: bool)
    ensures
        r == block_fits(block@),
{
    match block {
        TextBlock::Text(fragments) => {
            let mut i: usize = 0;
            while i < fragments.len()
                invariant
                    i <= fragments.len(),
                    block@ == BlockView::Text(crate::markdown::fragments_view(fragments@)),
                    forall|j: int|
                        0 <= j < i ==> #[trigger] fragments@[j].1.start + fragments@[j].0@.chars().len()
                            <= usize::MAX,
                decreases fragments.len() - i,
            {
                let fragment = &fragments[i];
                let n = fragment.0.text().as_str().unicode_len();
                if n > usize::MAX - fragment.1.start {
                    proof {
                        let fs = crate::markdown::fragments_view(fragments@);
                        assert(fs[i as int].start + fs[i as int].content.chars().len() > usize::MAX);
                    }
                    return false;
                }
                i = i + 1;
            }
            true
        },
        TextBlock::Code { .. } => true,
    }
}

/// Splits a post into sentences.
///
/// The post's text is its source if it has one, else its content. Fails
/// when the text is not Markdown that the extractor accepts, or when a
/// position in a block would not fit in `usize`.
pub fn split_post_into_sentences(post: Post) -> (r: Result<Vec<PostSentence>, Error>)
    ensures
        match split_post(post) {
            Ok(ss) => r matches Ok(v) && post_sentences_view(v@) == ss,
            Err(k) => r matches Err(e) && e.kind() == k,
        },
{
    let content = match &post.source {
        Some(source) => &source.content,
        None => &post.content,
    };
    let blocks = match extract_text_blocks(content.as_str()) {
        Ok(blocks) => blocks,
        Err(e) => return Err(e),
    };
    let ghost bs = blocks_view(blocks@);
    let mut sentences: Vec<PostSentence> = Vec::new();
    let mut i: usize = 0;
    while i < blocks.len()
        invariant
            i <= blocks.len(),
            bs == blocks_view(blocks@),
            text_blocks_of(post_text(post)) == Ok::<Seq<BlockView>, ErrorKind>(bs),
            blocks_fit(bs.take(i as int)),
            post_sentences_view(sentences@) == tag_sentences(
                post.id@,
                sentences_of_blocks(bs.take(i as int)),
            ),
        decreases blocks.len() - i,
    {
        let block = &blocks[i];
        proof {
            assert(bs[i as int] == block@);
            assert(bs.take(i + 1).drop_last() =~= bs.take(i as int));
        }
        if !fits(block) {
            proof {
                assert(!block_fits(bs[i as int]));
                assert(!blocks_fit(bs));
                assert(split_post(post) == Err::<Seq<PostSentenceView>, ErrorKind>(
                    ErrorKind::InvalidData,
                ));
            }
            let e = Error::InvalidData(String::from_str("a position does not fit in usize"));
            assert(e.kind() == ErrorKind::InvalidData);
            return Err(e);
        }
        let found = extract_sentences(block);
        let ghost before = post_sentences_view(sentences@);
        let mut j: usize = 0;
        while j < found.len()
            invariant
                j <= found.len(),
                post_sentences_view(sentences@) == before + tag_sentences(
                    post.id@,
                    sentences_view(found@).take(j as int),
                ),
            decreases found.len() - j,
        {
            let s = &found[j];
            let ghost prev = sentences@;
            sentences.push(
                PostSentence {
                    post_id: post.id.clone(),
                    content: s.0.clone(),
                    range: s.1.start..s.1.end,
                },
            );
            assert(sentences_view(found@).take(j + 1) =~= sentences_view(
                found@,
            ).take(j as int).push(sentence_view(*s)));
            assert(post_sentences_view(sentences@) =~= post_sentences_view(prev).push(
                (post.id@, s.0@, s.1.start as int, s.1.end as int),
            ));
            assert(tag_sentences(post.id@, sentences_view(found@).take(j + 1)) =~= tag_sentences(
                post.id@,
                sentences_view(found@).take(j as int),
            ).push((post.id@, s.0@, s.1.start as int, s.1.end as int)));
            assert(post_sentences_view(sentences@) =~= before + tag_sentences(
                post.id@,
                sentences_view(found@).take(j + 1),
            ));
            j = j + 1;
        }
        proof {
            assert(sentences_view(found@).take(found@.len() as int)
                =~= sentences_view(found@));
            assert(tag_sentences(post.id@, sentences_of_blocks(bs.take(i + 1))) =~= tag_sentences(
                post.id@,
                sentences_of_blocks(bs.take(i as int)),
            ) + tag_sentences(post.id@, block_sentences(bs[i as int])));
        }
        i = i + 1;
    }
    proof {
        assert(bs.take(bs.len() as int) =~= bs);
    }
    Ok(sentences)
}

} // verus!
