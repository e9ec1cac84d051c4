//! Properties of sentence segmentation.

use vstd::prelude::*;

use crate::markdown::{BlockView, ContentView, FragmentView};
use crate::text::{
    add_token, append_piece, assemble_onto, block_sentences, block_tokens, drop_empty, end_of,
    finish_tokens, fragment_sentences, fragments_fit, period_break, is_space, is_terminator, run_fragments, run_text, step_char,
    step_fragment, step_str, SentenceView, Tok, TransducerState,
};

verus! {

/// Adding tokens in two runs is adding them in one.
pub proof fn lemma_assemble_append(acc: Seq<SentenceView>, a: Seq<Tok>, b: Seq<Tok>)
    ensures
        assemble_onto(acc, a + b) == assemble_onto(assemble_onto(acc, a), b),
    decreases b.len(),
{
    if b.len() == 0 {
        assert(a + b =~= a);
    } else {
        assert((a + b).drop_last() =~= a + b.drop_last());
        assert((a + b).last() == b.last());
        lemma_assemble_append(acc, a, b.drop_last());
    }
}

/// Every sentence left by `drop_empty` has a text.
pub proof fn lemma_drop_empty_nonempty(ss: Seq<SentenceView>)
    ensures
        forall|i: int| 0 <= i < drop_empty(ss).len() ==> (#[trigger] drop_empty(ss)[i]).0.len() > 0,
    decreases ss.len(),
{
    if ss.len() > 0 {
        let prev = drop_empty(ss.drop_last());
        lemma_drop_empty_nonempty(ss.drop_last());
        if ss.last().0.len() > 0 {
            assert forall|i: int| 0 <= i < drop_empty(ss).len() implies (
            #[trigger] drop_empty(ss)[i]).0.len() > 0 by {
                if i < prev.len() {
                    assert(drop_empty(ss)[i] == prev[i]);
                }
            }
        }
    }
}

/// No sentence is empty; a code block whose code is empty is the one
/// exception, since its sentence is its code.
pub proof fn lemma_no_empty_sentence(b: BlockView)
    requires
        b matches BlockView::Code { code, .. } ==> code.len() > 0,
    ensures
        forall|i: int|
            0 <= i < block_sentences(b).len() ==> (#[trigger] block_sentences(b)[i]).0.len() > 0,
{
    match b {
        BlockView::Text(fs) => lemma_drop_empty_nonempty(assemble_onto(seq![], block_tokens(fs))),
        BlockView::Code { .. } => {},
    }
}

/// A code block gives exactly one sentence: its code, with its range.
pub proof fn lemma_code_block_sentence(
    language: Option<Seq<char>>,
    code: Seq<char>,
    start: int,
    end: int,
)
    ensures
        block_sentences(BlockView::Code { language, code, start, end }) == seq![(code, start, end)],
{
}

/// Segmentation depends on the block alone: equal blocks give equal
/// sentences.
pub proof fn lemma_segmentation_deterministic(b1: BlockView, b2: BlockView)
    requires
        b1 == b2,
    ensures
        block_sentences(b1) == block_sentences(b2),
{
}

/// The characters of `s` that are not whitespace, in order.
pub open spec fn strip_spaces(s: Seq<char>) -> Seq<char>
    decreases s.len(),
{
    if s.len() == 0 {
        seq![]
    } else if is_space(s.last()) {
        strip_spaces(s.drop_last())
    } else {
        strip_spaces(s.drop_last()).push(s.last())
    }
}

/// The text that a token carries.
pub open spec fn tok_text(t: Tok) -> Seq<char> {
    match t {
        Tok::Char { c, .. } => seq![c],
        Tok::Str { s, .. } => s,
        Tok::Brk { .. } => seq![],
    }
}

/// The texts of tokens, concatenated.
pub open spec fn toks_text(ts: Seq<Tok>) -> Seq<char>
    decreases ts.len(),
{
    if ts.len() == 0 {
        seq![]
    } else {
        toks_text(ts.drop_last()) + tok_text(ts.last())
    }
}

/// The texts of sentences, concatenated.
pub open spec fn sentences_text(ss: Seq<SentenceView>) -> Seq<char>
    decreases ss.len(),
{
    if ss.len() == 0 {
        seq![]
    } else {
        sentences_text(ss.drop_last()) + ss.last().0
    }
}

/// The contents of fragments, concatenated.
pub open spec fn fragments_text(fs: Seq<FragmentView>) -> Seq<char>
    decreases fs.len(),
{
    if fs.len() == 0 {
        seq![]
    } else {
        fragments_text(fs.drop_last()) + fs.last().content.chars()
    }
}

/// What a state holds back of the input once whitespace is left out.
pub open spec fn pending_text(st: TransducerState) -> Seq<char> {
    match st {
        TransducerState::PeriodAnd(_) => seq!['.'],
        TransducerState::WhitespacePeriodAnd(_, _) => seq!['.'],
        _ => seq![],
    }
}

proof fn lemma_strip_append(a: Seq<char>, b: Seq<char>)
    ensures
        strip_spaces(a + b) == strip_spaces(a) + strip_spaces(b),
    decreases b.len(),
{
    if b.len() == 0 {
        assert(a + b =~= a);
        assert(strip_spaces(a) + strip_spaces(b) =~= strip_spaces(a));
    } else {
        assert((a + b).drop_last() =~= a + b.drop_last());
        lemma_strip_append(a, b.drop_last());
        if is_space(b.last()) {
        } else {
            assert(strip_spaces(a) + strip_spaces(b) =~= (strip_spaces(a) + strip_spaces(
                b.drop_last(),
            )).push(b.last()));
        }
    }
}

proof fn lemma_strip_one(c: char)
    ensures
        strip_spaces(seq![c]) == (if is_space(c) {
            seq![]
        } else {
            seq![c]
        }),
{
    let e = Seq::<char>::empty();
    assert(seq![c].drop_last() =~= e);
    assert(seq![c].last() == c);
    assert(strip_spaces(e) == e);
    if !is_space(c) {
        assert(e.push(c) =~= seq![c]);
    }
}

proof fn lemma_toks_text_append(a: Seq<Tok>, b: Seq<Tok>)
    ensures
        toks_text(a + b) == toks_text(a) + toks_text(b),
    decreases b.len(),
{
    if b.len() == 0 {
        assert(a + b =~= a);
        assert(toks_text(a) + toks_text(b) =~= toks_text(a));
    } else {
        assert((a + b).drop_last() =~= a + b.drop_last());
        lemma_toks_text_append(a, b.drop_last());
        assert(toks_text(a) + toks_text(b) =~= toks_text(a) + toks_text(b.drop_last()) + tok_text(
            b.last(),
        ));
    }
}

proof fn lemma_toks_text_one(t: Tok)
    ensures
        toks_text(seq![t]) == tok_text(t),
{
    let e = Seq::<Tok>::empty();
    assert(seq![t].drop_last() =~= e);
    assert(toks_text(e) == Seq::<char>::empty());
    assert(Seq::<char>::empty() + tok_text(t) =~= tok_text(t));
}

proof fn lemma_toks_text_two(t: Tok, u: Tok)
    ensures
        toks_text(seq![t, u]) == tok_text(t) + tok_text(u),
{
    assert(seq![t, u] =~= seq![t] + seq![u]);
    lemma_toks_text_append(seq![t], seq![u]);
    lemma_toks_text_one(t);
    lemma_toks_text_one(u);
}

proof fn lemma_toks_text_three(t: Tok, u: Tok, v: Tok)
    ensures
        toks_text(seq![t, u, v]) == tok_text(t) + tok_text(u) + tok_text(v),
{
    assert(seq![t, u, v] =~= seq![t, u] + seq![v]);
    lemma_toks_text_append(seq![t, u], seq![v]);
    lemma_toks_text_two(t, u);
    lemma_toks_text_one(v);
}

proof fn lemma_sentences_text_add(acc: Seq<SentenceView>, t: Tok)
    ensures
        sentences_text(add_token(acc, t)) == sentences_text(acc) + tok_text(t),
{
    let p = tok_text(t);
    match t {
        Tok::Brk { start, end } => {
            assert(acc.push((seq![], start, end)).drop_last() =~= acc);
            assert(sentences_text(acc) + seq![] =~= sentences_text(acc));
        },
        Tok::Char { start, end, .. } => lemma_sentences_text_piece(acc, p, start, end),
        Tok::Str { start, end, .. } => lemma_sentences_text_piece(acc, p, start, end),
    }
}

proof fn lemma_sentences_text_piece(acc: Seq<SentenceView>, p: Seq<char>, start: int, end: int)
    ensures
        sentences_text(append_piece(acc, p, start, end)) == sentences_text(acc) + p,
{
    let r = append_piece(acc, p, start, end);
    if acc.len() == 0 {
        let e = Seq::<SentenceView>::empty();
        assert(r.drop_last() =~= e);
        assert(sentences_text(e) == Seq::<char>::empty());
        assert(Seq::<char>::empty() + p =~= p);
        assert(sentences_text(acc) + p =~= p);
    } else {
        assert(r.drop_last() =~= acc.drop_last());
        if acc.last().0.len() == 0 {
            assert(sentences_text(acc) =~= sentences_text(acc.drop_last()));
        } else {
            assert(sentences_text(r) =~= sentences_text(acc.drop_last()) + acc.last().0 + p);
        }
    }
}

proof fn lemma_sentences_text_assemble(acc: Seq<SentenceView>, ts: Seq<Tok>)
    ensures
        sentences_text(assemble_onto(acc, ts)) == sentences_text(acc) + toks_text(ts),
    decreases ts.len(),
{
    if ts.len() == 0 {
        assert(sentences_text(acc) + toks_text(ts) =~= sentences_text(acc));
    } else {
        lemma_sentences_text_assemble(acc, ts.drop_last());
        lemma_sentences_text_add(assemble_onto(acc, ts.drop_last()), ts.last());
        assert(sentences_text(acc) + toks_text(ts) =~= sentences_text(acc) + toks_text(
            ts.drop_last(),
        ) + tok_text(ts.last()));
    }
}

proof fn lemma_sentences_text_drop_empty(ss: Seq<SentenceView>)
    ensures
        sentences_text(drop_empty(ss)) == sentences_text(ss),
    decreases ss.len(),
{
    if ss.len() > 0 {
        lemma_sentences_text_drop_empty(ss.drop_last());
        if ss.last().0.len() == 0 {
            assert(sentences_text(ss) =~= sentences_text(ss.drop_last()));
        } else {
            let d = drop_empty(ss.drop_last()).push(ss.last());
            assert(d.drop_last() =~= drop_empty(ss.drop_last()));
        }
    }
}

proof fn lemma_step_char_text(st: TransducerState, k: int, c: char)
    ensures
        strip_spaces(toks_text(step_char(st, k, c).1)) + pending_text(step_char(st, k, c).0)
            == pending_text(st) + strip_spaces(seq![c]),
{
    lemma_strip_one(c);
    lemma_strip_one(' ');
    lemma_strip_one('.');
    let r = step_char(st, k, c);
    if r.1.len() == 1 {
        lemma_toks_text_one(r.1[0]);
        assert(r.1 =~= seq![r.1[0]]);
    } else if r.1.len() == 2 {
        lemma_toks_text_two(r.1[0], r.1[1]);
        assert(r.1 =~= seq![r.1[0], r.1[1]]);
        lemma_strip_append(tok_text(r.1[0]), tok_text(r.1[1]));
    } else if r.1.len() == 3 {
        lemma_toks_text_three(r.1[0], r.1[1], r.1[2]);
        assert(r.1 =~= seq![r.1[0], r.1[1], r.1[2]]);
        lemma_strip_append(tok_text(r.1[0]), tok_text(r.1[1]));
        lemma_strip_append(tok_text(r.1[0]) + tok_text(r.1[1]), tok_text(r.1[2]));
    }
    assert(!is_space('.'));
    assert(is_terminator(c) ==> !is_space(c));
    assert(strip_spaces(toks_text(r.1)) + pending_text(r.0) =~= pending_text(st) + strip_spaces(
        seq![c],
    ));
}

proof fn lemma_pending_tokens_text(st: TransducerState, k: int, s: Seq<char>)
    ensures
        strip_spaces(toks_text(step_str(st, k, s).1)) == pending_text(st) + strip_spaces(s),
{
    lemma_strip_one(' ');
    lemma_strip_one('.');
    let r = step_str(st, k, s);
    if r.1.len() == 1 {
        lemma_toks_text_one(r.1[0]);
        assert(r.1 =~= seq![r.1[0]]);
    } else if r.1.len() == 2 {
        lemma_toks_text_two(r.1[0], r.1[1]);
        assert(r.1 =~= seq![r.1[0], r.1[1]]);
        lemma_strip_append(tok_text(r.1[0]), tok_text(r.1[1]));
    } else {
        lemma_toks_text_three(r.1[0], r.1[1], r.1[2]);
        assert(r.1 =~= seq![r.1[0], r.1[1], r.1[2]]);
        lemma_strip_append(tok_text(r.1[0]), tok_text(r.1[1]));
        lemma_strip_append(tok_text(r.1[0]) + tok_text(r.1[1]), tok_text(r.1[2]));
    }
    assert(!is_space('.'));
    assert(strip_spaces(toks_text(r.1)) =~= pending_text(st) + strip_spaces(s));
}

proof fn lemma_finish_text(st: TransducerState, k: int)
    ensures
        strip_spaces(toks_text(finish_tokens(st, k))) == pending_text(st),
{
    lemma_strip_one(' ');
    lemma_strip_one('.');
    let r = finish_tokens(st, k);
    if r.len() == 0 {
        assert(toks_text(r) == Seq::<char>::empty());
        assert(strip_spaces(Seq::<char>::empty()) == Seq::<char>::empty());
    } else if r.len() == 1 {
        lemma_toks_text_one(r[0]);
        assert(r =~= seq![r[0]]);
    } else {
        lemma_toks_text_two(r[0], r[1]);
        assert(r =~= seq![r[0], r[1]]);
        lemma_strip_append(tok_text(r[0]), tok_text(r[1]));
        assert(strip_spaces(Seq::<char>::empty()) == Seq::<char>::empty());
    }
    assert(strip_spaces(toks_text(r)) =~= pending_text(st));
}

proof fn lemma_run_text_text(st: TransducerState, k: int, cs: Seq<char>)
    ensures
        strip_spaces(toks_text(run_text(st, k, cs).1)) + pending_text(run_text(st, k, cs).0)
            == pending_text(st) + strip_spaces(cs),
    decreases cs.len(),
{
    if cs.len() == 0 {
        assert(toks_text(Seq::<Tok>::empty()) == Seq::<char>::empty());
        assert(strip_spaces(Seq::<char>::empty()) == Seq::<char>::empty());
        assert(pending_text(st) + strip_spaces(cs) =~= pending_text(st));
        assert(Seq::<char>::empty() + pending_text(st) =~= pending_text(st));
    } else {
        let prev = run_text(st, k, cs.drop_last());
        let next = step_char(prev.0, k + cs.len() - 1, cs.last());
        lemma_run_text_text(st, k, cs.drop_last());
        lemma_step_char_text(prev.0, k + cs.len() - 1, cs.last());
        lemma_toks_text_append(prev.1, next.1);
        lemma_strip_append(toks_text(prev.1), toks_text(next.1));
        assert(cs =~= cs.drop_last() + seq![cs.last()]);
        lemma_strip_append(cs.drop_last(), seq![cs.last()]);
        let a = strip_spaces(toks_text(prev.1));
        let b = strip_spaces(toks_text(next.1));
        assert(a + b + pending_text(next.0) =~= a + (b + pending_text(next.0)));
        assert(a + (pending_text(prev.0) + strip_spaces(seq![cs.last()])) =~= (a + pending_text(
            prev.0,
        )) + strip_spaces(seq![cs.last()]));
        assert(strip_spaces(toks_text(prev.1 + next.1)) + pending_text(next.0) =~= pending_text(st)
            + strip_spaces(cs));
    }
}

proof fn lemma_step_fragment_text(st: TransducerState, f: FragmentView)
    ensures
        strip_spaces(toks_text(step_fragment(st, f).1)) + pending_text(step_fragment(st, f).0)
            == pending_text(st) + strip_spaces(f.content.chars()),
{
    if f.content is Text {
        lemma_run_text_text(st, f.start, f.content.chars());
    } else {
        lemma_pending_tokens_text(st, f.start, f.content.chars());
        assert(pending_text(TransducerState::Character) =~= Seq::<char>::empty());
        assert(strip_spaces(toks_text(step_fragment(st, f).1)) + Seq::<char>::empty()
            =~= strip_spaces(toks_text(step_fragment(st, f).1)));
    }
}

proof fn lemma_run_fragments_text(fs: Seq<FragmentView>)
    ensures
        strip_spaces(toks_text(run_fragments(fs).1)) + pending_text(run_fragments(fs).0)
            == strip_spaces(fragments_text(fs)),
    decreases fs.len(),
{
    if fs.len() == 0 {
        assert(toks_text(Seq::<Tok>::empty()) == Seq::<char>::empty());
        assert(strip_spaces(Seq::<char>::empty()) == Seq::<char>::empty());
        assert(Seq::<char>::empty() + Seq::<char>::empty() =~= Seq::<char>::empty());
    } else {
        let prev = run_fragments(fs.drop_last());
        let next = step_fragment(prev.0, fs.last());
        lemma_run_fragments_text(fs.drop_last());
        lemma_step_fragment_text(prev.0, fs.last());
        lemma_toks_text_append(prev.1, next.1);
        lemma_strip_append(toks_text(prev.1), toks_text(next.1));
        lemma_strip_append(fragments_text(fs.drop_last()), fs.last().content.chars());
        let a = strip_spaces(toks_text(prev.1));
        let b = strip_spaces(toks_text(next.1));
        let c = strip_spaces(fs.last().content.chars());
        assert(a + b + pending_text(next.0) =~= a + (b + pending_text(next.0)));
        assert(a + (pending_text(prev.0) + c) =~= (a + pending_text(prev.0)) + c);
        assert(strip_spaces(toks_text(prev.1 + next.1)) + pending_text(next.0) =~= strip_spaces(
            fragments_text(fs),
        ));
    }
}

/// Segmenting loses and adds nothing but whitespace: the sentences of a
/// paragraph-like block, concatenated, hold the same characters other than
/// whitespace, in the same order, as its fragments concatenated.
pub proof fn lemma_content_kept(fs: Seq<FragmentView>)
    ensures
        strip_spaces(sentences_text(fragment_sentences(fs))) == strip_spaces(fragments_text(fs)),
{
    let r = run_fragments(fs);
    let ts = block_tokens(fs);
    lemma_sentences_text_drop_empty(assemble_onto(seq![], ts));
    lemma_sentences_text_assemble(seq![], ts);
    assert(sentences_text(Seq::<SentenceView>::empty()) == Seq::<char>::empty());
    assert(Seq::<char>::empty() + toks_text(ts) =~= toks_text(ts));
    lemma_toks_text_append(r.1, finish_tokens(r.0, end_of(fs)));
    lemma_strip_append(toks_text(r.1), toks_text(finish_tokens(r.0, end_of(fs))));
    lemma_finish_text(r.0, end_of(fs));
    lemma_run_fragments_text(fs);
}

pub open spec fn tok_start(t: Tok) -> int {
    match t {
        Tok::Char { start, .. } => start,
        Tok::Str { start, .. } => start,
        Tok::Brk { start, .. } => start,
    }
}

pub open spec fn tok_end(t: Tok) -> int {
    match t {
        Tok::Char { end, .. } => end,
        Tok::Str { end, .. } => end,
        Tok::Brk { end, .. } => end,
    }
}

/// Tokens lie in order from `lo` on: none ends before it starts, and each
/// starts where the previous one ended or later.
pub open spec fn chained(ts: Seq<Tok>, lo: int) -> bool {
    &&& forall|i: int| 0 <= i < ts.len() ==> lo <= tok_start(#[trigger] ts[i]) <= tok_end(ts[i])
    &&& forall|i: int| 0 <= i < ts.len() - 1 ==> tok_end(#[trigger] ts[i]) <= tok_start(ts[i + 1])
}

/// Where tokens that lie in order from `lo` on end.
pub open spec fn frontier(ts: Seq<Tok>, lo: int) -> int {
    if ts.len() == 0 {
        lo
    } else {
        tok_end(ts.last())
    }
}

/// Positions that a state holds lie between the frontier `f` of the tokens
/// so far and the position `k` of the next input.
pub open spec fn pos_ok(st: TransducerState, f: int, k: int) -> bool {
    match st {
        TransducerState::Whitespace(w) => f <= w < k,
        TransducerState::PeriodAnd(p) => f <= p < k,
        TransducerState::WhitespacePeriodAnd(w, p) => f <= w <= p < k,
        _ => f <= k,
    }
}

/// Fragments are in order, and each one's content fits in its range.
pub open spec fn fragments_ordered(fs: Seq<FragmentView>) -> bool {
    &&& forall|i: int|
        0 <= i < fs.len() ==> 0 <= #[trigger] fs[i].start && fs[i].start + fs[i].content.chars().len()
            <= fs[i].end
    &&& forall|i: int| 0 <= i < fs.len() - 1 ==> (#[trigger] fs[i]).end <= fs[i + 1].start
}

/// Where a block's range starts.
pub open spec fn block_start(b: BlockView) -> int {
    match b {
        BlockView::Text(fs) => if fs.len() == 0 {
            0
        } else {
            fs[0].start
        },
        BlockView::Code { start, .. } => start,
    }
}

/// Where a block's range ends.
pub open spec fn block_end(b: BlockView) -> int {
    match b {
        BlockView::Text(fs) => end_of(fs),
        BlockView::Code { end, .. } => end,
    }
}

/// A block whose ranges are in order and whose positions fit in `usize`.
pub open spec fn block_ordered(b: BlockView) -> bool {
    match b {
        BlockView::Text(fs) => fragments_ordered(fs) && fragments_fit(fs),
        BlockView::Code { start, end, .. } => start <= end,
    }
}

/// Sentences lie between `lo` and `f`, in order.
pub open spec fn sentences_ok(ss: Seq<SentenceView>, lo: int, f: int) -> bool {
    &&& forall|i: int| 0 <= i < ss.len() ==> lo <= (#[trigger] ss[i]).1 <= ss[i].2 <= f
    &&& forall|i: int, j: int| 0 <= i < j < ss.len() ==> (#[trigger] ss[i]).2 <= (#[trigger] ss[j]).1
}

proof fn lemma_chain_append(a: Seq<Tok>, b: Seq<Tok>, lo: int)
    requires
        chained(a, lo),
        chained(b, frontier(a, lo)),
    ensures
        chained(a + b, lo),
        frontier(a + b, lo) == frontier(b, frontier(a, lo)),
        lo <= frontier(a, lo),
{
    let ab = a + b;
    if a.len() > 0 {
        assert(lo <= tok_start(a[a.len() - 1]));
    }
    assert forall|i: int| 0 <= i < ab.len() implies lo <= tok_start(#[trigger] ab[i]) <= tok_end(
        ab[i],
    ) by {
        if i < a.len() {
            assert(ab[i] == a[i]);
        } else {
            assert(ab[i] == b[i - a.len()]);
        }
    }
    assert forall|i: int| 0 <= i < ab.len() - 1 implies tok_end(#[trigger] ab[i]) <= tok_start(
        ab[i + 1],
    ) by {
        if i < a.len() - 1 {
            assert(ab[i] == a[i] && ab[i + 1] == a[i + 1]);
        } else if i == a.len() - 1 {
            assert(ab[i] == a[i] && ab[i + 1] == b[0]);
        } else {
            assert(ab[i] == b[i - a.len()] && ab[i + 1] == b[i - a.len() + 1]);
        }
    }
    if b.len() == 0 {
        assert(ab =~= a);
    } else {
        assert(ab.last() == b.last());
    }
}

proof fn lemma_pos_ok_later(st: TransducerState, f: int, k: int, l: int)
    requires
        pos_ok(st, f, k),
        k <= l,
    ensures
        pos_ok(st, f, l),
{
}

proof fn lemma_step_char_chain(st: TransducerState, f: int, k: int, c: char)
    requires
        pos_ok(st, f, k),
        0 <= k < usize::MAX,
    ensures
        chained(step_char(st, k, c).1, f),
        pos_ok(step_char(st, k, c).0, frontier(step_char(st, k, c).1, f), k + 1),
{
}

proof fn lemma_step_str_chain(st: TransducerState, f: int, k: int, s: Seq<char>)
    requires
        pos_ok(st, f, k),
    ensures
        chained(step_str(st, k, s).1, f),
        pos_ok(step_str(st, k, s).0, frontier(step_str(st, k, s).1, f), k + s.len()),
{
}

proof fn lemma_finish_chain(st: TransducerState, f: int, k: int)
    requires
        pos_ok(st, f, k),
    ensures
        chained(finish_tokens(st, k), f),
        frontier(finish_tokens(st, k), f) <= k,
{
}

#[verifier::rlimit(50)]
proof fn lemma_run_text_chain(st: TransducerState, f: int, k: int, cs: Seq<char>)
    requires
        pos_ok(st, f, k),
        0 <= k,
        k + cs.len() <= usize::MAX,
    ensures
        chained(run_text(st, k, cs).1, f),
        pos_ok(run_text(st, k, cs).0, frontier(run_text(st, k, cs).1, f), k + cs.len()),
    decreases cs.len(),
{
    if cs.len() > 0 {
        let prev = run_text(st, k, cs.drop_last());
        lemma_run_text_chain(st, f, k, cs.drop_last());
        let g = frontier(prev.1, f);
        let next = step_char(prev.0, k + cs.len() - 1, cs.last());
        lemma_step_char_chain(prev.0, g, k + cs.len() - 1, cs.last());
        lemma_chain_append(prev.1, next.1, f);
        assert(run_text(st, k, cs) == (next.0, prev.1 + next.1));
    }
}

proof fn lemma_run_fragments_chain(fs: Seq<FragmentView>, lo: int)
    requires
        fragments_ordered(fs),
        fragments_fit(fs),
        fs.len() > 0 ==> lo <= fs[0].start,
    ensures
        chained(run_fragments(fs).1, lo),
        pos_ok(
            run_fragments(fs).0,
            frontier(run_fragments(fs).1, lo),
            if fs.len() == 0 {
                lo
            } else {
                end_of(fs)
            },
        ),
    decreases fs.len(),
{
    if fs.len() > 0 {
        let init = fs.drop_last();
        let f = fs.last();
        assert forall|i: int| 0 <= i < init.len() implies 0 <= #[trigger] init[i].start
            && init[i].start + init[i].content.chars().len() <= init[i].end by {
            assert(init[i] == fs[i]);
        }
        assert forall|i: int| 0 <= i < init.len() - 1 implies (#[trigger] init[i]).end <= init[i
            + 1].start by {
            assert(init[i] == fs[i] && init[i + 1] == fs[i + 1]);
        }
        assert forall|i: int| 0 <= i < init.len() implies #[trigger] init[i].start
            + init[i].content.chars().len() <= usize::MAX by {
            assert(init[i] == fs[i]);
        }
        if init.len() > 0 {
            assert(init[0] == fs[0]);
        }
        lemma_run_fragments_chain(init, lo);
        let prev = run_fragments(init);
        let g = frontier(prev.1, lo);
        assert(fs[fs.len() - 1] == f);
        if init.len() > 0 {
            assert(fs[fs.len() - 2] == init.last());
            lemma_pos_ok_later(prev.0, g, end_of(init), f.start);
        } else {
            lemma_pos_ok_later(prev.0, g, lo, f.start);
        }
        let n = f.content.chars().len();
        match f.content {
            ContentView::Text(cs) => {
                lemma_run_text_chain(prev.0, g, f.start, cs);
                lemma_pos_ok_later(
                    run_text(prev.0, f.start, cs).0,
                    frontier(run_text(prev.0, f.start, cs).1, g),
                    f.start + n,
                    f.end,
                );
            },
            ContentView::Code(s) => {
                lemma_step_str_chain(prev.0, g, f.start, s);
                lemma_pos_ok_later(
                    step_str(prev.0, f.start, s).0,
                    frontier(step_str(prev.0, f.start, s).1, g),
                    f.start + n,
                    f.end,
                );
            },
            ContentView::Url(s) => {
                lemma_step_str_chain(prev.0, g, f.start, s);
                lemma_pos_ok_later(
                    step_str(prev.0, f.start, s).0,
                    frontier(step_str(prev.0, f.start, s).1, g),
                    f.start + n,
                    f.end,
                );
            },
        }
        lemma_chain_append(prev.1, step_fragment(prev.0, f).1, lo);
    }
}

proof fn lemma_add_token_ok(acc: Seq<SentenceView>, lo: int, g: int, t: Tok)
    requires
        sentences_ok(acc, lo, g),
        lo <= g <= tok_start(t) <= tok_end(t),
    ensures
        sentences_ok(add_token(acc, t), lo, tok_end(t)),
{
    let r = add_token(acc, t);
    if acc.len() > 0 {
        let n = acc.len() - 1;
        assert forall|i: int| 0 <= i < n implies #[trigger] acc[i].2 <= acc[n].1 by {}
        assert(r.len() >= acc.len());
        assert forall|i: int| 0 <= i < n implies #[trigger] r[i] == acc[i] by {}
    }
}

proof fn lemma_assemble_ok(acc: Seq<SentenceView>, lo: int, f: int, ts: Seq<Tok>)
    requires
        sentences_ok(acc, lo, f),
        lo <= f,
        chained(ts, f),
    ensures
        sentences_ok(assemble_onto(acc, ts), lo, frontier(ts, f)),
        f <= frontier(ts, f),
    decreases ts.len(),
{
    if ts.len() > 0 {
        let init = ts.drop_last();
        assert forall|i: int| 0 <= i < init.len() implies f <= tok_start(#[trigger] init[i])
            <= tok_end(init[i]) by {
            assert(init[i] == ts[i]);
        }
        assert forall|i: int| 0 <= i < init.len() - 1 implies tok_end(#[trigger] init[i])
            <= tok_start(init[i + 1]) by {
            assert(init[i] == ts[i] && init[i + 1] == ts[i + 1]);
        }
        lemma_assemble_ok(acc, lo, f, init);
        let g = frontier(init, f);
        if init.len() > 0 {
            assert(init.last() == ts[ts.len() - 2]);
        }
        assert(ts.last() == ts[ts.len() - 1]);
        lemma_add_token_ok(assemble_onto(acc, init), lo, g, ts.last());
    }
}

proof fn lemma_drop_empty_ok(ss: Seq<SentenceView>, lo: int, f: int)
    requires
        sentences_ok(ss, lo, f),
    ensures
        sentences_ok(drop_empty(ss), lo, f),
    decreases ss.len(),
{
    if ss.len() > 0 {
        let init = ss.drop_last();
        assert forall|i: int| 0 <= i < init.len() implies init[i] == ss[i] by {}
        lemma_drop_empty_ok(init, lo, f);
        if ss.last().0.len() > 0 {
            let last = ss.last();
            assert(sentences_ok(init, lo, last.1)) by {
                assert forall|i: int| 0 <= i < init.len() implies lo <= (#[trigger] init[i]).1
                    <= init[i].2 <= last.1 by {
                    assert(init[i] == ss[i]);
                    assert(ss[i].2 <= ss[ss.len() - 1].1);
                }
            }
            lemma_drop_empty_ok(init, lo, last.1);
            let d = drop_empty(ss);
            assert(d == drop_empty(init).push(last));
            assert(sentences_ok(d, lo, f)) by {
                let p = drop_empty(init);
                assert forall|i: int| 0 <= i < d.len() implies lo <= (#[trigger] d[i]).1 <= d[i].2
                    <= f by {
                    if i < p.len() {
                        assert(d[i] == p[i]);
                    }
                }
                assert forall|i: int, j: int| 0 <= i < j < d.len() implies (#[trigger] d[i]).2 <= (
                #[trigger] d[j]).1 by {
                    assert(d[i] == p[i]);
                    if j < p.len() {
                        assert(d[j] == p[j]);
                    }
                }
            }
        }
    }
}

/// The sentences of a block lie in the block's range, in order: each one
/// ends before the next one starts, so their starts and their ends both
/// increase weakly.
pub proof fn lemma_sentences_in_block(b: BlockView)
    requires
        block_ordered(b),
    ensures
        forall|i: int|
            0 <= i < block_sentences(b).len() ==> block_start(b) <= (
            #[trigger] block_sentences(b)[i]).1 <= block_sentences(b)[i].2 <= block_end(b),
        forall|i: int, j: int|
            0 <= i < j < block_sentences(b).len() ==> (#[trigger] block_sentences(b)[i]).1
                <= (#[trigger] block_sentences(b)[j]).1 && block_sentences(b)[i].2
                <= block_sentences(b)[j].2,
{
    match b {
        BlockView::Text(fs) => {
            let lo = block_start(b);
            let r = run_fragments(fs);
            lemma_run_fragments_chain(fs, lo);
            let f = frontier(r.1, lo);
            let hi = if fs.len() == 0 {
                lo
            } else {
                end_of(fs)
            };
            lemma_finish_chain(r.0, f, end_of(fs));
            if fs.len() == 0 {
                assert(r.0 == TransducerState::Initial);
                assert(r.1.len() == 0);
            }
            lemma_chain_append(r.1, finish_tokens(r.0, end_of(fs)), lo);
            let ts = block_tokens(fs);
            assert(sentences_ok(Seq::<SentenceView>::empty(), lo, lo));
            lemma_assemble_ok(Seq::<SentenceView>::empty(), lo, lo, ts);
            let a = assemble_onto(Seq::<SentenceView>::empty(), ts);
            lemma_drop_empty_ok(a, lo, frontier(ts, lo));
            let ss = drop_empty(a);
            assert(ss == block_sentences(b));
            assert forall|i: int, j: int| 0 <= i < j < ss.len() implies (#[trigger] ss[i]).1 <= (
            #[trigger] ss[j]).1 && ss[i].2 <= ss[j].2 by {
                assert(ss[i].2 <= ss[j].1);
            }
        },
        BlockView::Code { .. } => {},
    }
}

/// What a run over whitespace alone does, by the state it starts from.
pub open spec fn after_spaces(st: TransducerState, k: int) -> (TransducerState, Seq<Tok>) {
    match st {
        TransducerState::Character => (TransducerState::Whitespace(k as usize), seq![]),
        TransducerState::PeriodAnd(p) => (TransducerState::Initial, period_break(p as int)),
        TransducerState::WhitespacePeriodAnd(_, p) => (TransducerState::Initial, period_break(p as int)),
        _ => (st, seq![]),
    }
}

proof fn lemma_run_spaces(st: TransducerState, k: int, cs: Seq<char>)
    requires
        cs.len() > 0,
        forall|i: int| 0 <= i < cs.len() ==> is_space(#[trigger] cs[i]),
    ensures
        run_text(st, k, cs) == after_spaces(st, k),
    decreases cs.len(),
{
    let init = cs.drop_last();
    assert(is_space(cs[cs.len() - 1]));
    if init.len() == 0 {
        assert(run_text(st, k, init) == (st, Seq::<Tok>::empty()));
        let r = step_char(st, k, cs.last());
        assert(Seq::<Tok>::empty() + r.1 =~= r.1);
    } else {
        assert forall|i: int| 0 <= i < init.len() implies is_space(#[trigger] init[i]) by {
            assert(init[i] == cs[i]);
        }
        lemma_run_spaces(st, k, init);
        let prev = after_spaces(st, k);
        let r = step_char(prev.0, k + cs.len() - 1, cs.last());
        assert(r.1 =~= Seq::<Tok>::empty());
        assert(prev.1 + r.1 =~= prev.1);
    }
}

/// In any state but the initial one, the last sentence so far has a text.
pub open spec fn live(st: TransducerState, acc: Seq<SentenceView>) -> bool {
    st !is Initial ==> acc.len() > 0 && acc.last().0.len() > 0
}

/// Every code and URL fragment has a content.
pub open spec fn opaque_nonempty(fs: Seq<FragmentView>) -> bool {
    forall|i: int|
        0 <= i < fs.len() ==> (#[trigger] fs[i]).content !is Text ==> fs[i].content.chars().len() > 0
}

proof fn lemma_piece_live(acc: Seq<SentenceView>, p: Seq<char>, start: int, end: int)
    requires
        p.len() > 0,
    ensures
        append_piece(acc, p, start, end).len() > 0,
        append_piece(acc, p, start, end).last().0.len() > 0,
{
}

proof fn lemma_step_char_live(st: TransducerState, k: int, c: char, acc: Seq<SentenceView>)
    requires
        live(st, acc),
    ensures
        live(step_char(st, k, c).0, assemble_onto(acc, step_char(st, k, c).1)),
{
    let r = step_char(st, k, c);
    if r.1.len() == 0 {
        assert(assemble_onto(acc, r.1) == acc);
    } else if r.0 !is Initial {
        let t = r.1.last();
        assert(t is Char);
        lemma_piece_live(assemble_onto(acc, r.1.drop_last()), seq![t->c], t->Char_start, t->Char_end);
    }
}

proof fn lemma_step_str_live(st: TransducerState, k: int, s: Seq<char>, acc: Seq<SentenceView>)
    requires
        s.len() > 0,
    ensures
        live(step_str(st, k, s).0, assemble_onto(acc, step_str(st, k, s).1)),
{
    let r = step_str(st, k, s);
    lemma_piece_live(assemble_onto(acc, r.1.drop_last()), s, k, k + s.len());
}

proof fn lemma_run_text_live(st: TransducerState, k: int, cs: Seq<char>, acc: Seq<SentenceView>)
    requires
        live(st, acc),
    ensures
        live(run_text(st, k, cs).0, assemble_onto(acc, run_text(st, k, cs).1)),
    decreases cs.len(),
{
    if cs.len() > 0 {
        let prev = run_text(st, k, cs.drop_last());
        let next = step_char(prev.0, k + cs.len() - 1, cs.last());
        lemma_run_text_live(st, k, cs.drop_last(), acc);
        lemma_step_char_live(prev.0, k + cs.len() - 1, cs.last(), assemble_onto(acc, prev.1));
        lemma_assemble_append(acc, prev.1, next.1);
    }
}

proof fn lemma_run_fragments_live(fs: Seq<FragmentView>)
    requires
        opaque_nonempty(fs),
    ensures
        live(run_fragments(fs).0, assemble_onto(seq![], run_fragments(fs).1)),
    decreases fs.len(),
{
    if fs.len() > 0 {
        let init = fs.drop_last();
        assert forall|i: int| 0 <= i < init.len() implies (#[trigger] init[i]).content !is Text
            ==> init[i].content.chars().len() > 0 by {
            assert(init[i] == fs[i]);
        }
        lemma_run_fragments_live(init);
        let prev = run_fragments(init);
        let f = fs.last();
        let acc = assemble_onto(seq![], prev.1);
        assert(fs[fs.len() - 1] == f);
        match f.content {
            ContentView::Text(cs) => lemma_run_text_live(prev.0, f.start, cs, acc),
            ContentView::Code(s) => lemma_step_str_live(prev.0, f.start, s, acc),
            ContentView::Url(s) => lemma_step_str_live(prev.0, f.start, s, acc),
        }
        lemma_assemble_append(seq![], prev.1, step_fragment(prev.0, f).1);
    }
}

proof fn lemma_drop_empty_last(acc: Seq<SentenceView>, x: SentenceView)
    requires
        acc.len() > 0,
        acc.last().0.len() > 0,
        x.0.len() > 0,
    ensures
        drop_empty(acc.drop_last().push(x)).len() == drop_empty(acc).len(),
{
    assert(acc.drop_last().push(x).drop_last() =~= acc.drop_last());
}

/// Whitespace at the end of a paragraph-like block adds no sentence:
/// appending a text fragment of whitespace alone leaves the number of
/// sentences as it is. This holds where every code and URL fragment has a
/// content: after an empty one, trailing whitespace is all the sentence has.
pub proof fn lemma_trailing_whitespace(fs: Seq<FragmentView>, w: FragmentView)
    requires
        opaque_nonempty(fs),
        w.content is Text,
        forall|i: int| 0 <= i < w.content.chars().len() ==> is_space(#[trigger] w.content.chars()[i]),
    ensures
        fragment_sentences(fs.push(w)).len() == fragment_sentences(fs).len(),
{
    let gs = fs.push(w);
    assert(gs.drop_last() =~= fs);
    assert(gs.last() == w);
    assert(end_of(gs) == w.end);
    let r = run_fragments(fs);
    let cs = w.content.chars();
    let a = assemble_onto(seq![], r.1);
    lemma_run_fragments_live(fs);
    let old_fin = finish_tokens(r.0, end_of(fs));
    lemma_assemble_append(seq![], r.1, old_fin);
    let a_old = assemble_onto(a, old_fin);
    assert(fragment_sentences(fs) == drop_empty(a_old));
    let s = if cs.len() == 0 {
        (r.0, Seq::<Tok>::empty())
    } else {
        after_spaces(r.0, w.start)
    };
    if cs.len() == 0 {
        assert(run_text(r.0, w.start, cs) == (r.0, Seq::<Tok>::empty()));
    } else {
        lemma_run_spaces(r.0, w.start, cs);
    }
    assert(run_fragments(gs) == (s.0, r.1 + s.1));
    let new_fin = finish_tokens(s.0, w.end);
    lemma_assemble_append(seq![], r.1 + s.1, new_fin);
    lemma_assemble_append(seq![], r.1, s.1);
    let a_new = assemble_onto(assemble_onto(a, s.1), new_fin);
    assert(fragment_sentences(gs) == drop_empty(a_new));
    match r.0 {
        TransducerState::Character => {
            assert(old_fin =~= Seq::<Tok>::empty());
            assert(a_old == a);
            if cs.len() == 0 {
                assert(new_fin =~= Seq::<Tok>::empty());
                assert(a_new == a);
            } else {
                assert(s.1 =~= Seq::<Tok>::empty());
                assert(new_fin.len() == 1);
                assert(new_fin.drop_last() =~= Seq::<Tok>::empty());
                assert(a_new == add_token(a, new_fin.last()));
                assert(a_new == a.drop_last().push(a_new.last()));
                lemma_drop_empty_last(a, a_new.last());
                assert(a.drop_last().push(a.last()) =~= a);
            }
        },
        TransducerState::Whitespace(_) => {
            assert(s.1 =~= Seq::<Tok>::empty());
            assert(new_fin.len() == 1 && old_fin.len() == 1);
            assert(new_fin.drop_last() =~= Seq::<Tok>::empty());
            assert(old_fin.drop_last() =~= Seq::<Tok>::empty());
            assert(a_new == add_token(a, new_fin.last()));
            assert(a_old == add_token(a, old_fin.last()));
            assert(a_new == a.drop_last().push(a_new.last()));
            assert(a_old == a.drop_last().push(a_old.last()));
            lemma_drop_empty_last(a, a_new.last());
            lemma_drop_empty_last(a, a_old.last());
        },
        TransducerState::Initial => {
            assert(s.1 =~= Seq::<Tok>::empty());
            assert(new_fin =~= Seq::<Tok>::empty());
            assert(old_fin =~= Seq::<Tok>::empty());
        },
        _ => {
            if cs.len() == 0 {
                assert(s.1 =~= Seq::<Tok>::empty());
                assert(new_fin == old_fin);
            } else {
                assert(new_fin =~= Seq::<Tok>::empty());
                assert(s.1 == old_fin);
            }
            lemma_assemble_append(a, s.1, new_fin);
            assert(s.1 + new_fin =~= old_fin);
        },
    }
}

/// Sentence `j` holds `c` whole, from offset `o` on.
pub open spec fn holds_at(ss: Seq<SentenceView>, c: Seq<char>, j: int, o: int) -> bool {
    &&& 0 <= j < ss.len()
    &&& 0 <= o
    &&& o + c.len() <= ss[j].0.len()
    &&& ss[j].0.subrange(o, o + c.len()) == c
}

/// Some sentence holds `c` whole.
pub open spec fn held_whole(ss: Seq<SentenceView>, c: Seq<char>) -> bool {
    exists|j: int, o: int| holds_at(ss, c, j, o)
}

proof fn lemma_run_prefix(fs: Seq<FragmentView>, n: int)
    requires
        0 <= n <= fs.len(),
    ensures
        run_fragments(fs.take(n)).1.len() <= run_fragments(fs).1.len(),
        run_fragments(fs).1.take(run_fragments(fs.take(n)).1.len() as int) == run_fragments(
            fs.take(n),
        ).1,
    decreases fs.len(),
{
    if n == fs.len() {
        assert(fs.take(n) =~= fs);
        assert(run_fragments(fs).1.take(run_fragments(fs).1.len() as int) =~= run_fragments(fs).1);
    } else {
        let init = fs.drop_last();
        assert(init.take(n) =~= fs.take(n));
        lemma_run_prefix(init, n);
        let a = run_fragments(init).1;
        let b = step_fragment(run_fragments(init).0, fs.last()).1;
        let m = run_fragments(fs.take(n)).1.len() as int;
        assert((a + b).take(m) =~= a.take(m));
    }
}

proof fn lemma_held_after_str(acc: Seq<SentenceView>, c: Seq<char>, start: int, end: int)
    requires
        c.len() > 0,
    ensures
        held_whole(append_piece(acc, c, start, end), c),
{
    let r = append_piece(acc, c, start, end);
    let j = r.len() - 1;
    if acc.len() == 0 || acc.last().0.len() == 0 {
        assert(r[j].0.subrange(0, c.len() as int) =~= c);
        assert(holds_at(r, c, j, 0));
    } else {
        let o = acc.last().0.len() as int;
        assert(r[j].0.subrange(o, o + c.len()) =~= c);
        assert(holds_at(r, c, j, o));
    }
}

proof fn lemma_held_add_token(acc: Seq<SentenceView>, c: Seq<char>, t: Tok)
    requires
        c.len() > 0,
        held_whole(acc, c),
    ensures
        held_whole(add_token(acc, t), c),
{
    let (j, o) = choose|j: int, o: int| holds_at(acc, c, j, o);
    let r = add_token(acc, t);
    if j < acc.len() - 1 {
        assert(r[j] == acc[j]);
        assert(holds_at(r, c, j, o));
    } else {
        match t {
            Tok::Brk { .. } => {
                assert(r[j] == acc[j]);
                assert(holds_at(r, c, j, o));
            },
            _ => {
                let p = tok_text(t);
                assert(acc.last().0.len() > 0);
                assert(r[j].0 == acc[j].0 + p);
                assert(r[j].0.subrange(o, o + c.len()) =~= acc[j].0.subrange(o, o + c.len()));
                assert(holds_at(r, c, j, o));
            },
        }
    }
}

proof fn lemma_held_assemble(acc: Seq<SentenceView>, c: Seq<char>, ts: Seq<Tok>)
    requires
        c.len() > 0,
        held_whole(acc, c),
    ensures
        held_whole(assemble_onto(acc, ts), c),
    decreases ts.len(),
{
    if ts.len() > 0 {
        lemma_held_assemble(acc, c, ts.drop_last());
        lemma_held_add_token(assemble_onto(acc, ts.drop_last()), c, ts.last());
    }
}

proof fn lemma_held_drop_empty(ss: Seq<SentenceView>, c: Seq<char>)
    requires
        c.len() > 0,
        held_whole(ss, c),
    ensures
        held_whole(drop_empty(ss), c),
    decreases ss.len(),
{
    let (j, o) = choose|j: int, o: int| holds_at(ss, c, j, o);
    let init = ss.drop_last();
    if j == ss.len() - 1 {
        let d = drop_empty(ss);
        assert(ss.last().0.len() > 0);
        assert(d.last() == ss.last());
        assert(holds_at(d, c, d.len() - 1, o));
    } else {
        assert(init[j] == ss[j]);
        assert(holds_at(init, c, j, o));
        lemma_held_drop_empty(init, c);
        let (j2, o2) = choose|j2: int, o2: int| holds_at(drop_empty(init), c, j2, o2);
        let d = drop_empty(ss);
        assert(d[j2] == drop_empty(init)[j2]);
        assert(holds_at(d, c, j2, o2));
    }
}

/// Code and URL fragments are never split: the content of each one that is
/// not empty stands whole inside a single sentence.
pub proof fn lemma_opaque_whole(fs: Seq<FragmentView>, i: int)
    requires
        0 <= i < fs.len(),
        fs[i].content !is Text,
        fs[i].content.chars().len() > 0,
    ensures
        held_whole(fragment_sentences(fs), fs[i].content.chars()),
{
    let c = fs[i].content.chars();
    let upto = fs.take(i + 1);
    assert(upto.drop_last() =~= fs.take(i));
    assert(upto.last() == fs[i]);
    let before = run_fragments(fs.take(i));
    let mine = step_str(before.0, fs[i].start, c);
    assert(run_fragments(upto).1 == before.1 + mine.1);
    let p = run_fragments(upto).1;
    lemma_run_prefix(fs, i + 1);
    let all = block_tokens(fs);
    let m = p.len() as int;
    assert(all.take(m) == p);
    assert(all == p + all.skip(m)) by {
        assert(all =~= all.take(m) + all.skip(m));
    }
    lemma_assemble_append(seq![], p, all.skip(m));
    let q = assemble_onto(seq![], p.drop_last());
    assert(p.drop_last() =~= before.1 + mine.1.drop_last());
    assert(p.last() == mine.1.last());
    assert(assemble_onto(seq![], p) == append_piece(q, c, fs[i].start, fs[i].start + c.len()));
    lemma_held_after_str(q, c, fs[i].start, fs[i].start + c.len());
    lemma_held_assemble(assemble_onto(seq![], p), c, all.skip(m));
    lemma_held_drop_empty(assemble_onto(seq![], all), c);
}

} // verus!
