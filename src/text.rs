//! Sentence segmentation of text blocks.
//!
//! A text block is read as a stream of segments: the characters of each text
//! fragment one by one, and each code or URL fragment as one opaque string.
//! A small state machine turns the stream into tokens (characters, opaque
//! strings and sentence breaks) which are then assembled into sentences.

use core::ops::Range;
use vstd::prelude::*;

use crate::markdown::{
    fragment_view, fragments_view, push_char, BlockView, ContentView, Fragment, FragmentContent,
    FragmentView, TextBlock,
};

verus! {

/// ASCII whitespace: space, tab, line feed, vertical tab, form feed and
/// carriage return.
pub open spec fn is_space(c: char) -> bool {
    c == ' ' || c == '\t' || c == '\n' || c == '\x0B' || c == '\x0C' || c == '\r'
}

/// Characters that always end a sentence.
pub open spec fn is_terminator(c: char) -> bool {
    c == '?' || c == '!' || c == ';' || c == '\u{3002}' || c == '\u{FF01}' || c == '\u{FF1F}'
}

fn is_space_char(c: char) -> (r: bool)
    ensures
        r == is_space(c),
{
    c == ' ' || c == '\t' || c == '\n' || c == '\x0B' || c == '\x0C' || c == '\r'
}

fn is_sentence_break(c: char) -> (r: bool)
    ensures
        r == is_terminator(c),
{
    c == '?' || c == '!' || c == ';' || c == '\u{3002}' || c == '\u{FF01}' || c == '\u{FF1F}'
}

/// State of the segmenting state machine.
#[derive(Clone, Copy, Debug, PartialEq, Eq, Structural)]
pub enum TransducerState {
    /// No character of the current sentence yet.
    Initial,
    /// Inside a sentence.
    Character,
    /// After whitespace; holds the position of the first whitespace.
    Whitespace(usize),
    /// After a period that may end the sentence; holds its position.
    PeriodAnd(usize),
    /// After whitespace and then a period; holds both positions.
    WhitespacePeriodAnd(usize, usize),
}

/// Kind of an output token.
#[derive(Clone, Debug)]
pub enum TokenType {
    /// One character.
    Character(char),
    /// An opaque string.
    String(String),
    /// The end of a sentence.
    SentenceBreak,
}

/// Output token with its range.
pub type Token = (TokenType, Range<usize>);

/// Abstract token.
pub enum Tok {
    Char { c: char, start: int, end: int },
    Str { s: Seq<char>, start: int, end: int },
    Brk { start: int, end: int },
}

pub open spec fn token_view(t: Token) -> Tok {
    match t.0 {
        TokenType::Character(c) => Tok::Char { c, start: t.1.start as int, end: t.1.end as int },
        TokenType::String(s) => Tok::Str { s: s@, start: t.1.start as int, end: t.1.end as int },
        TokenType::SentenceBreak => Tok::Brk { start: t.1.start as int, end: t.1.end as int },
    }
}

pub open spec fn tokens_view(ts: Seq<Token>) -> Seq<Tok> {
    ts.map_values(|t: Token| token_view(t))
}

pub open spec fn char_tok(c: char, k: int) -> Tok {
    Tok::Char { c, start: k, end: k + 1 }
}

/// The single space that stands for the whitespace run `[w, k)`.
pub open spec fn space_tok(w: int, k: int) -> Tok {
    Tok::Char { c: ' ', start: w, end: k }
}

pub open spec fn break_tok(k: int) -> Tok {
    Tok::Brk { start: k, end: k }
}

/// Tokens of a committed period at `p`: the period and a sentence break.
pub open spec fn period_break(p: int) -> Seq<Tok> {
    seq![char_tok('.', p), break_tok(p + 1)]
}

/// What a state still holds back before a character or string that is
/// neither whitespace nor a committing one.
pub open spec fn pending_tokens(st: TransducerState, k: int) -> Seq<Tok> {
    match st {
        TransducerState::Whitespace(w) => seq![space_tok(w as int, k)],
        TransducerState::PeriodAnd(p) => seq![char_tok('.', p as int)],
        TransducerState::WhitespacePeriodAnd(w, p) => seq![
            space_tok(w as int, p as int),
            char_tok('.', p as int),
        ],
        _ => seq![],
    }
}

/// One step on the character `c` at position `k`.
pub open spec fn step_char(st: TransducerState, k: int, c: char) -> (TransducerState, Seq<Tok>) {
    match st {
        TransducerState::Initial => if is_space(c) {
            (TransducerState::Initial, seq![])
        } else {
            (TransducerState::Character, seq![char_tok(c, k)])
        },
        TransducerState::Character => if is_space(c) {
            (TransducerState::Whitespace(k as usize), seq![])
        } else if c == '.' {
            (TransducerState::PeriodAnd(k as usize), seq![])
        } else if is_terminator(c) {
            (TransducerState::Initial, seq![char_tok(c, k), break_tok(k + 1)])
        } else {
            (TransducerState::Character, seq![char_tok(c, k)])
        },
        TransducerState::Whitespace(w) => if is_space(c) {
            (TransducerState::Whitespace(w), seq![])
        } else if c == '.' {
            (TransducerState::WhitespacePeriodAnd(w, k as usize), seq![])
        } else if is_terminator(c) {
            (TransducerState::Initial, seq![char_tok(c, k), break_tok(k + 1)])
        } else {
            (TransducerState::Character, pending_tokens(st, k).push(char_tok(c, k)))
        },
        TransducerState::PeriodAnd(p) => if is_space(c) {
            (TransducerState::Initial, period_break(p as int))
        } else {
            (TransducerState::Character, pending_tokens(st, k).push(char_tok(c, k)))
        },
        TransducerState::WhitespacePeriodAnd(_, p) => if is_space(c) {
            (TransducerState::Initial, period_break(p as int))
        } else {
            (TransducerState::Character, pending_tokens(st, k).push(char_tok(c, k)))
        },
    }
}

/// One step on the opaque string `s` at position `k`.
pub open spec fn step_str(st: TransducerState, k: int, s: Seq<char>) -> (TransducerState, Seq<Tok>) {
    (
        TransducerState::Character,
        pending_tokens(st, k).push(Tok::Str { s, start: k, end: k + s.len() }),
    )
}

/// Tokens at the end of a block that ends at `k`.
pub open spec fn finish_tokens(st: TransducerState, k: int) -> Seq<Tok> {
    match st {
        TransducerState::Whitespace(w) => seq![space_tok(w as int, k)],
        TransducerState::PeriodAnd(p) => period_break(p as int),
        TransducerState::WhitespacePeriodAnd(_, p) => period_break(p as int),
        _ => seq![],
    }
}

/// Positions held in a state leave room for the position after them.
pub open spec fn state_fits(st: TransducerState) -> bool {
    match st {
        TransducerState::PeriodAnd(p) => p < usize::MAX,
        TransducerState::WhitespacePeriodAnd(_, p) => p < usize::MAX,
        _ => true,
    }
}

impl TransducerState {
    fn initial_next(k: usize, ch: char) -> (r: (Self, Vec<Token>))
        requires
            k < usize::MAX,
        ensures
            (r.0, tokens_view(r.1@)) == step_char(TransducerState::Initial, k as int, ch),
    {
        if is_space_char(ch) {
            (TransducerState::Initial, Vec::new())
        } else {
            (TransducerState::Character, vec![(TokenType::Character(ch), k..k + 1)])
        }
    }

    fn initial_next_string(k: usize, text: &String, n: usize) -> (r: (Self, Vec<Token>))
        requires
            n == text@.len(),
            k + n <= usize::MAX,
        ensures
            (r.0, tokens_view(r.1@)) == step_str(TransducerState::Initial, k as int, text@),
    {
        (TransducerState::Character, vec![(TokenType::String(text.clone()), k..k + n)])
    }

    fn initial_finish() -> (r: (Self, Vec<Token>))
        ensures
            r.0 == TransducerState::Initial,
            tokens_view(r.1@) == finish_tokens(TransducerState::Initial, 0),
    {
        (TransducerState::Initial, Vec::new())
    }

    fn character_next(k: usize, ch: char) -> (r: (Self, Vec<Token>))
        requires
            k < usize::MAX,
        ensures
            (r.0, tokens_view(r.1@)) == step_char(TransducerState::Character, k as int, ch),
    {
        if is_space_char(ch) {
            (TransducerState::Whitespace(k), Vec::new())
        } else if ch == '.' {
            (TransducerState::PeriodAnd(k), Vec::new())
        } else if is_sentence_break(ch) {
            (
                TransducerState::Initial,
                vec![(TokenType::Character(ch), k..k + 1), (TokenType::SentenceBreak, k + 1..k + 1)],
            )
        } else {
            (TransducerState::Character, vec![(TokenType::Character(ch), k..k + 1)])
        }
    }

    fn character_next_string(k: usize, text: &String, n: usize) -> (r: (Self, Vec<Token>))
        requires
            n == text@.len(),
            k + n <= usize::MAX,
        ensures
            (r.0, tokens_view(r.1@)) == step_str(TransducerState::Character, k as int, text@),
    {
        (TransducerState::Character, vec![(TokenType::String(text.clone()), k..k + n)])
    }

    fn character_finish() -> (r: (Self, Vec<Token>))
        ensures
            r.0 == TransducerState::Initial,
            tokens_view(r.1@) == finish_tokens(TransducerState::Character, 0),
    {
        (TransducerState::Initial, Vec::new())
    }

    fn whitespace_next(k: usize, start: usize, ch: char) -> (r: (Self, Vec<Token>))
        requires
            k < usize::MAX,
        ensures
            (r.0, tokens_view(r.1@)) == step_char(TransducerState::Whitespace(start), k as int, ch),
    {
        if is_space_char(ch) {
            (TransducerState::Whitespace(start), Vec::new())
        } else if ch == '.' {
            (TransducerState::WhitespacePeriodAnd(start, k), Vec::new())
        } else if is_sentence_break(ch) {
            // the whitespace before a terminator is dropped
            (
                TransducerState::Initial,
                vec![(TokenType::Character(ch), k..k + 1), (TokenType::SentenceBreak, k + 1..k + 1)],
            )
        } else {
            (
                TransducerState::Character,
                vec![(TokenType::Character(' '), start..k), (TokenType::Character(ch), k..k + 1)],
            )
        }
    }

    fn whitespace_next_string(k: usize, start: usize, text: &String, n: usize) -> (r: (
        Self,
        Vec<Token>,
    ))
        requires
            n == text@.len(),
            k + n <= usize::MAX,
        ensures
            (r.0, tokens_view(r.1@)) == step_str(TransducerState::Whitespace(start), k as int, text@),
    {
        (
            TransducerState::Character,
            vec![(TokenType::Character(' '), start..k), (TokenType::String(text.clone()), k..k + n)],
        )
    }

    fn whitespace_finish(k: usize, start: usize) -> (r: (Self, Vec<Token>))
        ensures
            r.0 == TransducerState::Initial,
            tokens_view(r.1@) == finish_tokens(TransducerState::Whitespace(start), k as int),
    {
        (TransducerState::Initial, vec![(TokenType::Character(' '), start..k)])
    }

    fn period_and_next(k: usize, start: usize, ch: char) -> (r: (Self, Vec<Token>))
        requires
            k < usize::MAX,
            start < usize::MAX,
        ensures
            (r.0, tokens_view(r.1@)) == step_char(TransducerState::PeriodAnd(start), k as int, ch),
    {
        if is_space_char(ch) {
            // the period ends the sentence; following whitespace is leading
            (
                TransducerState::Initial,
                vec![
                    (TokenType::Character('.'), start..start + 1),
                    (TokenType::SentenceBreak, start + 1..start + 1),
                ],
            )
        } else {
            // the period does not end the sentence
            (
                TransducerState::Character,
                vec![(TokenType::Character('.'), start..start + 1), (TokenType::Character(ch), k..k + 1)],
            )
        }
    }

    fn period_and_next_string(k: usize, start: usize, text: &String, n: usize) -> (r: (
        Self,
        Vec<Token>,
    ))
        requires
            n == text@.len(),
            k + n <= usize::MAX,
            start < usize::MAX,
        ensures
            (r.0, tokens_view(r.1@)) == step_str(TransducerState::PeriodAnd(start), k as int, text@),
    {
        (
            TransducerState::Character,
            vec![
                (TokenType::Character('.'), start..start + 1),
                (TokenType::String(text.clone()), k..k + n),
            ],
        )
    }

    fn period_and_finish(start: usize) -> (r: (Self, Vec<Token>))
        requires
            start < usize::MAX,
        ensures
            r.0 == TransducerState::Initial,
            tokens_view(r.1@) == finish_tokens(TransducerState::PeriodAnd(start), 0),
    {
        (
            TransducerState::Initial,
            vec![
                (TokenType::Character('.'), start..start + 1),
                (TokenType::SentenceBreak, start + 1..start + 1),
            ],
        )
    }

    fn whitespace_period_and_next(k: usize, w_start: usize, p_start: usize, ch: char) -> (r: (
        Self,
        Vec<Token>,
    ))
        requires
            k < usize::MAX,
            p_start < usize::MAX,
        ensures
            (r.0, tokens_view(r.1@)) == step_char(
                TransducerState::WhitespacePeriodAnd(w_start, p_start),
                k as int,
                ch,
            ),
    {
        if is_space_char(ch) {
            // the period ends the sentence; the whitespace before it is dropped
            (
                TransducerState::Initial,
                vec![
                    (TokenType::Character('.'), p_start..p_start + 1),
                    (TokenType::SentenceBreak, p_start + 1..p_start + 1),
                ],
            )
        } else {
            // the period does not end the sentence; the whitespace stays
            (
                TransducerState::Character,
                vec![
                    (TokenType::Character(' '), w_start..p_start),
                    (TokenType::Character('.'), p_start..p_start + 1),
                    (TokenType::Character(ch), k..k + 1),
                ],
            )
        }
    }

    fn whitespace_period_and_next_string(
        k: usize,
        w_start: usize,
        p_start: usize,
        text: &String,
        n: usize,
    ) -> (r: (Self, Vec<Token>))
        requires
            n == text@.len(),
            k + n <= usize::MAX,
            p_start < usize::MAX,
        ensures
            (r.0, tokens_view(r.1@)) == step_str(
                TransducerState::WhitespacePeriodAnd(w_start, p_start),
                k as int,
                text@,
            ),
    {
        (
            TransducerState::Character,
            vec![
                (TokenType::Character(' '), w_start..p_start),
                (TokenType::Character('.'), p_start..p_start + 1),
                (TokenType::String(text.clone()), k..k + n),
            ],
        )
    }

    fn whitespace_period_and_finish(p_start: usize) -> (r: (Self, Vec<Token>))
        requires
            p_start < usize::MAX,
        ensures
            r.0 == TransducerState::Initial,
            tokens_view(r.1@) == finish_tokens(TransducerState::WhitespacePeriodAnd(0, p_start), 0),
    {
        (
            TransducerState::Initial,
            vec![
                (TokenType::Character('.'), p_start..p_start + 1),
                (TokenType::SentenceBreak, p_start + 1..p_start + 1),
            ],
        )
    }
}

impl TransducerState {
    fn next(self, k: usize, ch: char) -> (r: (Self, Vec<Token>))
        requires
            k < usize::MAX,
            state_fits(self),
        ensures
            (r.0, tokens_view(r.1@)) == step_char(self, k as int, ch),
            state_fits(r.0),
    {
        match self {
            TransducerState::Initial => Self::initial_next(k, ch),
            TransducerState::Character => Self::character_next(k, ch),
            TransducerState::Whitespace(start) => Self::whitespace_next(k, start, ch),
            TransducerState::PeriodAnd(start) => Self::period_and_next(k, start, ch),
            TransducerState::WhitespacePeriodAnd(w_start, p_start) => {
                Self::whitespace_period_and_next(k, w_start, p_start, ch)
            },
        }
    }

    fn next_string(self, k: usize, text: &String, n: usize) -> (r: (Self, Vec<Token>))
        requires
            n == text@.len(),
            k + n <= usize::MAX,
            state_fits(self),
        ensures
            (r.0, tokens_view(r.1@)) == step_str(self, k as int, text@),
            state_fits(r.0),
    {
        match self {
            TransducerState::Initial => Self::initial_next_string(k, text, n),
            TransducerState::Character => Self::character_next_string(k, text, n),
            TransducerState::Whitespace(start) => Self::whitespace_next_string(k, start, text, n),
            TransducerState::PeriodAnd(start) => Self::period_and_next_string(k, start, text, n),
            TransducerState::WhitespacePeriodAnd(w_start, p_start) => {
                Self::whitespace_period_and_next_string(k, w_start, p_start, text, n)
            },
        }
    }

    fn finish(self, k: usize) -> (r: (Self, Vec<Token>))
        requires
            state_fits(self),
        ensures
            r.0 == TransducerState::Initial,
            tokens_view(r.1@) == finish_tokens(self, k as int),
    {
        match self {
            TransducerState::Initial => Self::initial_finish(),
            TransducerState::Character => Self::character_finish(),
            TransducerState::Whitespace(start) => Self::whitespace_finish(k, start),
            TransducerState::PeriodAnd(start) => Self::period_and_finish(start),
            TransducerState::WhitespacePeriodAnd(_, p_start) => {
                Self::whitespace_period_and_finish(p_start)
            },
        }
    }
}

/// The state machine together with the position of the next character.
pub struct Transducer {
    num_chars: usize,
    state: TransducerState,
}

impl Transducer {
    pub closed spec fn position(&self) -> int {
        self.num_chars as int
    }

    pub closed spec fn current(&self) -> TransducerState {
        self.state
    }

    fn new_from(state: TransducerState, start: usize) -> (r: Self)
        ensures
            r.position() == start,
            r.current() == state,
    {
        Transducer { num_chars: start, state }
    }

    fn next(&mut self, ch: char) -> (r: Vec<Token>)
        requires
            old(self).position() < usize::MAX,
            state_fits(old(self).current()),
        ensures
            (final(self).current(), tokens_view(r@)) == step_char(
                old(self).current(),
                old(self).position(),
                ch,
            ),
            final(self).position() == old(self).position() + 1,
            state_fits(final(self).current()),
    {
        let (state, output) = self.state.next(self.num_chars, ch);
        self.state = state;
        self.num_chars = self.num_chars + 1;
        output
    }

    fn next_string(&mut self, text: &String) -> (r: Vec<Token>)
        requires
            old(self).position() + text@.len() <= usize::MAX,
            state_fits(old(self).current()),
        ensures
            (final(self).current(), tokens_view(r@)) == step_str(
                old(self).current(),
                old(self).position(),
                text@,
            ),
            final(self).position() == old(self).position() + text@.len(),
            state_fits(final(self).current()),
    {
        let n = text.as_str().unicode_len();
        let (state, output) = self.state.next_string(self.num_chars, text, n);
        self.state = state;
        self.num_chars = self.num_chars + n;
        output
    }

    fn finish(&mut self) -> (r: Vec<Token>)
        requires
            state_fits(old(self).current()),
        ensures
            tokens_view(r@) == finish_tokens(old(self).current(), old(self).position()),
            final(self).current() == TransducerState::Initial,
            final(self).position() == old(self).position(),
    {
        let (state, output) = self.state.finish(self.num_chars);
        self.state = state;
        output
    }
}

/// Runs the state machine from `st` over the characters `cs` of a text
/// fragment that starts at `k`.
pub open spec fn run_text(st: TransducerState, k: int, cs: Seq<char>) -> (TransducerState, Seq<Tok>)
    decreases cs.len(),
{
    if cs.len() == 0 {
        (st, seq![])
    } else {
        let prev = run_text(st, k, cs.drop_last());
        let next = step_char(prev.0, k + cs.len() - 1, cs.last());
        (next.0, prev.1 + next.1)
    }
}

/// Runs the state machine from `st` over one fragment.
pub open spec fn step_fragment(st: TransducerState, f: FragmentView) -> (TransducerState, Seq<Tok>) {
    match f.content {
        ContentView::Text(cs) => run_text(st, f.start, cs),
        ContentView::Code(cs) => step_str(st, f.start, cs),
        ContentView::Url(cs) => step_str(st, f.start, cs),
    }
}

/// Runs the state machine from the initial state over fragments.
pub open spec fn run_fragments(fs: Seq<FragmentView>) -> (TransducerState, Seq<Tok>)
    decreases fs.len(),
{
    if fs.len() == 0 {
        (TransducerState::Initial, seq![])
    } else {
        let prev = run_fragments(fs.drop_last());
        let next = step_fragment(prev.0, fs.last());
        (next.0, prev.1 + next.1)
    }
}

/// Where a sequence of fragments ends: the end of the last one, or 0.
pub open spec fn end_of(fs: Seq<FragmentView>) -> int {
    if fs.len() == 0 {
        0
    } else {
        fs.last().end
    }
}

/// All tokens of a paragraph-like block, the final ones included.
pub open spec fn block_tokens(fs: Seq<FragmentView>) -> Seq<Tok> {
    let r = run_fragments(fs);
    r.1 + finish_tokens(r.0, end_of(fs))
}

/// Every position that segmentation computes fits in `usize`.
pub open spec fn fragments_fit(fs: Seq<FragmentView>) -> bool {
    forall|i: int| 0 <= i < fs.len() ==> #[trigger] fs[i].start + fs[i].content.chars().len() <= usize::MAX
}

proof fn lemma_tokens_view_append(a: Seq<Token>, b: Seq<Token>)
    ensures
        tokens_view(a + b) == tokens_view(a) + tokens_view(b),
{
    assert(tokens_view(a + b) =~= tokens_view(a) + tokens_view(b));
}

// Segments the characters of a text fragment.
fn segment_text(state: TransducerState, text: &String, range: &Range<usize>) -> (r: (
    Vec<Token>,
    TransducerState,
))
    requires
        range.start + text@.len() <= usize::MAX,
        state_fits(state),
    ensures
        (r.1, tokens_view(r.0@)) == run_text(state, range.start as int, text@),
        state_fits(r.1),
{
    let mut transducer = Transducer::new_from(state, range.start);
    let mut tokens: Vec<Token> = Vec::new();
    for ch in it: text.chars()
        invariant
            range.start + text@.len() <= usize::MAX,
            it.seq() == text@,
            transducer.position() == range.start + it.index(),
            state_fits(transducer.current()),
            (transducer.current(), tokens_view(tokens@)) == run_text(
                state,
                range.start as int,
                text@.take(it.index() as int),
            ),
    {
        let ghost i = it.index() as int;
        let mut out = transducer.next(ch);
        proof {
            lemma_tokens_view_append(tokens@, out@);
            assert(text@.take(i + 1).drop_last() =~= text@.take(i));
        }
        tokens.append(&mut out);
    }
    proof {
        assert(text@.take(text@.len() as int) =~= text@);
    }
    (tokens, transducer.state)
}

// Passes an opaque string through the state machine: the string is never
// split, but the state may change.
fn pass_token_string(state: TransducerState, text: &String, range: &Range<usize>) -> (r: (
    Vec<Token>,
    TransducerState,
))
    requires
        range.start + text@.len() <= usize::MAX,
        state_fits(state),
    ensures
        (r.1, tokens_view(r.0@)) == step_str(state, range.start as int, text@),
        state_fits(r.1),
{
    let mut transducer = Transducer::new_from(state, range.start);
    let tokens = transducer.next_string(text);
    (tokens, transducer.state)
}

fn segment_fragment(state: TransducerState, fragment: &Fragment) -> (r: (Vec<Token>, TransducerState))
    requires
        fragment.1.start + fragment.0@.chars().len() <= usize::MAX,
        state_fits(state),
    ensures
        (r.1, tokens_view(r.0@)) == step_fragment(state, fragment_view(*fragment)),
        state_fits(r.1),
{
    match &fragment.0 {
        FragmentContent::Text(text) => segment_text(state, text, &fragment.1),
        FragmentContent::Code(code) => pass_token_string(state, code, &fragment.1),
        FragmentContent::Url(url) => pass_token_string(state, url, &fragment.1),
    }
}

/// A sentence: its text and its range `[start, end)`.
pub type SentenceView = (Seq<char>, int, int);

pub open spec fn sentence_view(s: (String, Range<usize>)) -> SentenceView {
    (s.0@, s.1.start as int, s.1.end as int)
}

pub open spec fn sentences_view(ss: Seq<(String, Range<usize>)>) -> Seq<SentenceView> {
    ss.map_values(|s: (String, Range<usize>)| sentence_view(s))
}

/// Appends a piece of text at `[start, end)` to the last sentence; a sentence
/// that is still empty takes the piece's range.
pub open spec fn append_piece(acc: Seq<SentenceView>, p: Seq<char>, start: int, end: int) -> Seq<
    SentenceView,
> {
    if acc.len() == 0 {
        seq![(p, start, end)]
    } else if acc.last().0.len() == 0 {
        acc.drop_last().push((p, start, end))
    } else {
        acc.drop_last().push((acc.last().0 + p, acc.last().1, end))
    }
}

pub open spec fn add_token(acc: Seq<SentenceView>, t: Tok) -> Seq<SentenceView> {
    match t {
        Tok::Char { c, start, end } => append_piece(acc, seq![c], start, end),
        Tok::Str { s, start, end } => append_piece(acc, s, start, end),
        Tok::Brk { start, end } => acc.push((seq![], start, end)),
    }
}

/// Adds tokens, in order, to the sentences `acc`.
pub open spec fn assemble_onto(acc: Seq<SentenceView>, ts: Seq<Tok>) -> Seq<SentenceView>
    decreases ts.len(),
{
    if ts.len() == 0 {
        acc
    } else {
        add_token(assemble_onto(acc, ts.drop_last()), ts.last())
    }
}

/// Leaves out the sentences with an empty text.
pub open spec fn drop_empty(ss: Seq<SentenceView>) -> Seq<SentenceView>
    decreases ss.len(),
{
    if ss.len() == 0 {
        seq![]
    } else if ss.last().0.len() == 0 {
        drop_empty(ss.drop_last())
    } else {
        drop_empty(ss.drop_last()).push(ss.last())
    }
}

/// Sentences of a paragraph-like block.
pub open spec fn fragment_sentences(fs: Seq<FragmentView>) -> Seq<SentenceView> {
    drop_empty(assemble_onto(seq![], block_tokens(fs)))
}

/// Sentences of a text block.
pub open spec fn block_sentences(b: BlockView) -> Seq<SentenceView> {
    match b {
        BlockView::Text(fs) => fragment_sentences(fs),
        BlockView::Code { code, start, end, .. } => seq![(code, start, end)],
    }
}

/// Positions of a block fit in `usize` while it is segmented.
pub open spec fn block_fits(b: BlockView) -> bool {
    match b {
        BlockView::Text(fs) => fragments_fit(fs),
        BlockView::Code { .. } => true,
    }
}

// Appends a piece of text to the last sentence, or opens the first one.
fn append_to_last(
    sentences: &mut Vec<(String, Range<usize>)>,
    piece: &String,
    range: &Range<usize>,
)
    ensures
        sentences_view(final(sentences)@) == append_piece(
            sentences_view(old(sentences)@),
            piece@,
            range.start as int,
            range.end as int,
        ),
{
    let ghost before = sentences_view(sentences@);
    match sentences.pop() {
        None => {
            sentences.push((piece.clone(), range.start..range.end));
            assert(sentences_view(sentences@) =~= seq![(piece@, range.start as int, range.end as int)]);
        },
        Some((text, r)) => {
            assert(sentences_view(sentences@) =~= before.drop_last());
            if text.as_str().is_empty() {
                sentences.push((piece.clone(), range.start..range.end));
            } else {
                let mut text = text;
                text.append(piece.as_str());
                sentences.push((text, r.start..range.end));
            }
            assert(sentences_view(sentences@) =~= append_piece(
                before,
                piece@,
                range.start as int,
                range.end as int,
            ));
        },
    }
}

// Assembles tokens into sentences.
fn assemble(tokens: &Vec<Token>) -> (r: Vec<(String, Range<usize>)>)
    ensures
        sentences_view(r@) == assemble_onto(seq![], tokens_view(tokens@)),
{
    let mut sentences: Vec<(String, Range<usize>)> = Vec::new();
    let mut i: usize = 0;
    while i < tokens.len()
        invariant
            i <= tokens.len(),
            sentences_view(sentences@) == assemble_onto(seq![], tokens_view(tokens@.take(i as int))),
        decreases tokens.len() - i,
    {
        let token = &tokens[i];
        match &token.0 {
            TokenType::Character(c) => {
                let mut piece = String::new();
                push_char(&mut piece, *c);
                assert(piece@ =~= seq![*c]);
                append_to_last(&mut sentences, &piece, &token.1);
            },
            TokenType::String(s) => {
                append_to_last(&mut sentences, s, &token.1);
            },
            TokenType::SentenceBreak => {
                let ghost before = sentences_view(sentences@);
                sentences.push((String::new(), token.1.start..token.1.end));
                assert(sentences_view(sentences@) =~= before.push(
                    (seq![], token.1.start as int, token.1.end as int),
                ));
            },
        }
        proof {
            assert(tokens_view(tokens@.take(i + 1)).drop_last() =~= tokens_view(tokens@.take(i as int)));
        }
        i = i + 1;
    }
    proof {
        assert(tokens@.take(tokens@.len() as int) =~= tokens@);
    }
    sentences
}

// Leaves out the sentences with an empty text.
fn drop_empty_sentences(sentences: Vec<(String, Range<usize>)>) -> (r: Vec<(String, Range<usize>)>)
    ensures
        sentences_view(r@) == drop_empty(sentences_view(sentences@)),
{
    let mut kept: Vec<(String, Range<usize>)> = Vec::new();
    let mut i: usize = 0;
    while i < sentences.len()
        invariant
            i <= sentences.len(),
            sentences_view(kept@) == drop_empty(sentences_view(sentences@.take(i as int))),
        decreases sentences.len() - i,
    {
        let s = &sentences[i];
        let ghost before = sentences_view(kept@);
        proof {
            assert(sentences_view(sentences@.take(i + 1)).drop_last() =~= sentences_view(
                sentences@.take(i as int),
            ));
        }
        if !s.0.as_str().is_empty() {
            kept.push((s.0.clone(), s.1.start..s.1.end));
            assert(sentences_view(kept@) =~= before.push(sentence_view(*s)));
        }
        i = i + 1;
    }
    proof {
        assert(sentences@.take(sentences@.len() as int) =~= sentences@);
    }
    kept
}

fn extract_sentences_from_fragments(fragments: &Vec<Fragment>) -> (r: Vec<(String, Range<usize>)>)
    requires
        fragments_fit(fragments_view(fragments@)),
    ensures
        sentences_view(r@) == fragment_sentences(fragments_view(fragments@)),
{
    let ghost fs = fragments_view(fragments@);
    let mut tokens: Vec<Token> = Vec::new();
    let mut state = TransducerState::Initial;
    let mut i: usize = 0;
    while i < fragments.len()
        invariant
            i <= fragments.len(),
            fs == fragments_view(fragments@),
            fragments_fit(fs),
            state_fits(state),
            (state, tokens_view(tokens@)) == run_fragments(fs.take(i as int)),
        decreases fragments.len() - i,
    {
        proof {
            assert(fs[i as int] == fragment_view(fragments@[i as int]));
            assert(fs[i as int].start + fs[i as int].content.chars().len() <= usize::MAX);
            assert(fs.take(i + 1).drop_last() =~= fs.take(i as int));
        }
        let (mut new_tokens, next) = segment_fragment(state, &fragments[i]);
        proof {
            lemma_tokens_view_append(tokens@, new_tokens@);
        }
        tokens.append(&mut new_tokens);
        state = next;
        i = i + 1;
    }
    proof {
        assert(fs.take(fs.len() as int) =~= fs);
    }
    let end = if fragments.len() == 0 {
        0
    } else {
        fragments[fragments.len() - 1].1.end
    };
    let mut transducer = Transducer::new_from(state, end);
    let mut last_tokens = transducer.finish();
    proof {
        lemma_tokens_view_append(tokens@, last_tokens@);
    }
    tokens.append(&mut last_tokens);
    let sentences = assemble(&tokens);
    drop_empty_sentences(sentences)
}

/// Extracts the sentences of a text block, each with its range.
///
/// A code block is a single sentence.
pub fn extract_sentences(text_block: &TextBlock) -> (r: Vec<(String, Range<usize>)>)
    requires
        block_fits(text_block@),
    ensures
        sentences_view(r@) == block_sentences(text_block@),
{
    match text_block {
        TextBlock::Text(fragments) => extract_sentences_from_fragments(fragments),
        TextBlock::Code { code, range, .. } => {
            let r = vec![(code.clone(), range.start..range.end)];
            assert(sentences_view(r@) =~= block_sentences(text_block@));
            r
        },
    }
}

} // verus!
