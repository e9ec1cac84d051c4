//! Properties of text block extraction.

use vstd::prelude::*;

use crate::extractor::{
    add_fragment, add_soft_break, blocks_of_events, code_fragment, feed_fragments, fragment_event,
    frame_event, link_substitute, run_events, step_event, ExtractorView, FrameView,
};
use crate::markdown::{BlockView, ContentView, EventView, FragmentView, RangedEventView, TagView};

verus! {

/// No two adjacent fragments are both text fragments.
pub open spec fn coalesced(fs: Seq<FragmentView>) -> bool {
    forall|i: int|
        0 <= i < fs.len() - 1 ==> !((#[trigger] fs[i]).content is Text && fs[i + 1].content is Text)
}

pub open spec fn frame_coalesced(f: FrameView) -> bool {
    match f {
        FrameView::Paragraph { fragments, .. } => coalesced(fragments),
        _ => true,
    }
}

pub open spec fn block_coalesced(b: BlockView) -> bool {
    match b {
        BlockView::Text(fs) => coalesced(fs),
        _ => true,
    }
}

/// Every paragraph on the stack and every text block so far is coalesced.
pub open spec fn extractor_coalesced(x: ExtractorView) -> bool {
    &&& forall|i: int| 0 <= i < x.stack.len() ==> frame_coalesced(#[trigger] x.stack[i])
    &&& forall|i: int| 0 <= i < x.blocks.len() ==> block_coalesced(#[trigger] x.blocks[i])
}

proof fn lemma_add_fragment_coalesced(fs: Seq<FragmentView>, f: FragmentView)
    requires
        coalesced(fs),
    ensures
        coalesced(add_fragment(fs, f)),
{
    let r = add_fragment(fs, f);
    assert forall|i: int| 0 <= i < r.len() - 1 implies !((#[trigger] r[i]).content is Text
        && r[i + 1].content is Text) by {
        if i < fs.len() - 1 {
            assert(r[i] == fs[i]);
        }
        if i + 1 < fs.len() - 1 {
            assert(r[i + 1] == fs[i + 1]);
        }
        if i == fs.len() - 2 {
            assert(r[i] == fs[i]);
        }
    }
}

proof fn lemma_add_soft_break_coalesced(fs: Seq<FragmentView>)
    requires
        coalesced(fs),
    ensures
        coalesced(add_soft_break(fs)),
{
    let r = add_soft_break(fs);
    assert forall|i: int| 0 <= i < r.len() - 1 implies !((#[trigger] r[i]).content is Text
        && r[i + 1].content is Text) by {
        assert(r[i].content is Text <==> fs[i].content is Text);
        assert(r[i + 1].content is Text <==> fs[i + 1].content is Text);
    }
}

proof fn lemma_push_coalesced(fs: Seq<FragmentView>, f: FragmentView)
    requires
        coalesced(fs),
        !(f.content is Text),
    ensures
        coalesced(fs.push(f)),
{
    let r = fs.push(f);
    assert forall|i: int| 0 <= i < r.len() - 1 implies !((#[trigger] r[i]).content is Text
        && r[i + 1].content is Text) by {
        assert(r[i] == fs[i]);
        if i + 1 < fs.len() {
            assert(r[i + 1] == fs[i + 1]);
        }
    }
}

proof fn lemma_fragment_event_coalesced(x: ExtractorView, f: FragmentView)
    requires
        extractor_coalesced(x),
    ensures
        fragment_event(x, f) matches Ok(y) ==> extractor_coalesced(y),
{
    if x.stack.len() > 0 && x.stack.last() is Paragraph {
        assert(frame_coalesced(x.stack[x.stack.len() - 1]));
        lemma_add_fragment_coalesced(x.stack.last()->fragments, f);
        let y = fragment_event(x, f)->Ok_0;
        assert forall|i: int| 0 <= i < y.stack.len() implies frame_coalesced(#[trigger] y.stack[i]) by {
            if i < x.stack.len() - 1 {
                assert(y.stack[i] == x.stack[i]);
            }
        }
    }
}

proof fn lemma_feed_coalesced(x: ExtractorView, fs: Seq<FragmentView>)
    requires
        extractor_coalesced(x),
    ensures
        feed_fragments(x, fs) matches Ok(y) ==> extractor_coalesced(y),
    decreases fs.len(),
{
    if fs.len() > 0 {
        lemma_feed_coalesced(x, fs.drop_last());
        match feed_fragments(x, fs.drop_last()) {
            Ok(y) => lemma_fragment_event_coalesced(y, fs.last()),
            Err(_) => {},
        }
    }
}

proof fn lemma_step_event_coalesced(x: ExtractorView, e: RangedEventView)
    requires
        extractor_coalesced(x),
    ensures
        step_event(x, e) matches Ok(y) ==> extractor_coalesced(y),
{
    if x.stack.len() > 0 {
        let top = x.stack.last();
        let p = x.pop();
        assert(frame_coalesced(x.stack[x.stack.len() - 1]));
        assert(extractor_coalesced(p)) by {
            assert forall|i: int| 0 <= i < p.stack.len() implies frame_coalesced(
                #[trigger] p.stack[i],
            ) by {
                assert(p.stack[i] == x.stack[i]);
            }
        }
        match top {
            FrameView::Paragraph { item, fragments } => {
                lemma_add_fragment_coalesced(
                    fragments,
                    FragmentView { content: ContentView::Text(e.0->Text_0), start: e.1, end: e.2 },
                );
                lemma_add_soft_break_coalesced(fragments);
                if e.0 is Code {
                    lemma_push_coalesced(fragments, code_fragment(e.0->Code_0, e.1, e.2));
                }
                if e.0 is Html {
                    lemma_push_coalesced(fragments, code_fragment(e.0->Html_0, e.1, e.2));
                }
            },
            FrameView::Link(fs) => {
                lemma_feed_coalesced(p, fs);
                match e.0 {
                    EventView::End(TagView::Link(url, title)) => {
                        lemma_feed_coalesced(
                            p,
                            seq![link_substitute(url, title, e.1, e.2)],
                        );
                    },
                    _ => {},
                }
            },
            _ => {},
        }
    }
}

proof fn lemma_run_events_coalesced(es: Seq<RangedEventView>)
    ensures
        run_events(es) matches Ok(x) ==> extractor_coalesced(x),
    decreases es.len(),
{
    if es.len() > 0 {
        lemma_run_events_coalesced(es.drop_last());
        match run_events(es.drop_last()) {
            Ok(x) => lemma_step_event_coalesced(x, es.last()),
            Err(_) => {},
        }
    }
}

/// Extraction never leaves two text fragments side by side: contiguous
/// texts of a block are merged into one fragment.
pub proof fn lemma_blocks_coalesced(es: Seq<RangedEventView>)
    ensures
        blocks_of_events(es) matches Ok(bs) ==> forall|i: int|
            0 <= i < bs.len() ==> (#[trigger] bs[i] matches BlockView::Text(fs) ==> coalesced(fs)),
{
    lemma_run_events_coalesced(es);
    if let Ok(bs) = blocks_of_events(es) {
        let x = run_events(es)->Ok_0;
        assert forall|i: int| 0 <= i < bs.len() implies (#[trigger] bs[i] matches BlockView::Text(
            fs,
        ) ==> coalesced(fs)) by {
            assert(block_coalesced(x.blocks[i]));
        }
    }
}

} // verus!
