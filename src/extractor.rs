//! The state machine that turns Markdown events into text blocks.
//!
//! A stack of frames follows the nesting of the document (block quote, list,
//! item, paragraph, link). Each event is handled by the frame on top of the
//! stack, which changes, pushes frames, or pops and emits a text block.

use core::ops::Range;
use vstd::prelude::*;

use crate::error::{Error, ErrorKind};
use crate::markdown::{
    blocks_view, fragment_view, fragments_view, option_string_view, push_char, BlockView,
    ContentView, EventView, Fragment, FragmentContent, FragmentView, MarkdownEvent, MarkdownTag,
    RangedEventView, TagView, TextBlock,
};

verus! {

/// Frame of the extractor's stack.
pub enum FrameView {
    /// Expecting a block-level element.
    Blank,
    /// Collecting the inline content of a paragraph or a list item.
    Paragraph { item: bool, fragments: Seq<FragmentView> },
    /// Expecting the code of a code block.
    CodeBlock { language: Option<Seq<char>>, code: Option<Seq<char>>, start: int, end: int },
    /// Collecting the content of a link.
    Link(Seq<FragmentView>),
    /// Skipping struck-through content.
    Strikethrough,
}

/// State of the extractor: its stack, top last, and the blocks so far.
pub struct ExtractorView {
    pub stack: Seq<FrameView>,
    pub blocks: Seq<BlockView>,
}

pub open spec fn initial_extractor() -> ExtractorView {
    ExtractorView { stack: seq![FrameView::Blank], blocks: seq![] }
}

impl ExtractorView {
    pub open spec fn push(self, f: FrameView) -> ExtractorView {
        ExtractorView { stack: self.stack.push(f), ..self }
    }

    pub open spec fn pop(self) -> ExtractorView {
        ExtractorView { stack: self.stack.drop_last(), ..self }
    }

    pub open spec fn emit(self, b: BlockView) -> ExtractorView {
        ExtractorView { blocks: self.blocks.push(b), ..self }
    }
}

/// Adds a fragment to the fragments of a paragraph: a text fragment right
/// after a text fragment is merged into it.
pub open spec fn add_fragment(fs: Seq<FragmentView>, f: FragmentView) -> Seq<FragmentView> {
    if f.content is Text && fs.len() > 0 && fs.last().content is Text {
        fs.drop_last().push(
            FragmentView {
                content: ContentView::Text(fs.last().content.chars() + f.content.chars()),
                start: fs.last().start,
                end: f.end,
            },
        )
    } else {
        fs.push(f)
    }
}

/// Appends a line break to the last fragment if it is a text fragment.
pub open spec fn add_soft_break(fs: Seq<FragmentView>) -> Seq<FragmentView> {
    if fs.len() > 0 && fs.last().content is Text {
        fs.drop_last().push(
            FragmentView {
                content: ContentView::Text(fs.last().content.chars().push('\n')),
                ..fs.last()
            },
        )
    } else {
        fs
    }
}

pub open spec fn text_fragment(s: Seq<char>, start: int, end: int) -> FragmentView {
    FragmentView { content: ContentView::Text(s), start, end }
}

pub open spec fn code_fragment(s: Seq<char>, start: int, end: int) -> FragmentView {
    FragmentView { content: ContentView::Code(s), start, end }
}

/// Event in the blank frame; `x` is the state with that frame popped.
pub open spec fn blank_event(x: ExtractorView, e: EventView, start: int, end: int) -> Result<
    ExtractorView,
    ErrorKind,
> {
    match e {
        EventView::Start(TagView::Paragraph) => Ok(
            x.push(FrameView::Blank).push(FrameView::Paragraph { item: false, fragments: seq![] }),
        ),
        EventView::Start(TagView::CodeBlock(language)) => Ok(
            x.push(FrameView::Blank).push(
                FrameView::CodeBlock { language, code: None, start, end },
            ),
        ),
        EventView::Start(TagView::BlockQuote) => Ok(x.push(FrameView::Blank).push(FrameView::Blank)),
        EventView::End(TagView::BlockQuote) => Ok(x),
        EventView::Start(TagView::List) => Ok(x.push(FrameView::Blank).push(FrameView::Blank)),
        EventView::End(TagView::List) => Ok(x),
        EventView::Start(TagView::Item) => Ok(
            x.push(FrameView::Blank).push(FrameView::Paragraph { item: true, fragments: seq![] }),
        ),
        _ => Err(ErrorKind::InvalidContext),
    }
}

/// Event in a paragraph frame; `x` is the state with that frame popped.
pub open spec fn paragraph_event(
    item: bool,
    fs: Seq<FragmentView>,
    x: ExtractorView,
    e: EventView,
    start: int,
    end: int,
) -> Result<ExtractorView, ErrorKind> {
    let again = |g: Seq<FragmentView>| x.push(FrameView::Paragraph { item, fragments: g });
    match e {
        EventView::End(TagView::Paragraph) => if !item {
            Ok(x.emit(BlockView::Text(fs)))
        } else {
            Err(ErrorKind::InvalidContext)
        },
        EventView::End(TagView::Item) => if item {
            Ok(x.emit(BlockView::Text(fs)))
        } else {
            Err(ErrorKind::InvalidContext)
        },
        EventView::HardBreak => Ok(
            x.emit(BlockView::Text(fs)).push(FrameView::Paragraph { item, fragments: seq![] }),
        ),
        EventView::Text(s) => Ok(again(add_fragment(fs, text_fragment(s, start, end)))),
        EventView::Code(s) => Ok(again(fs.push(code_fragment(s, start, end)))),
        EventView::Html(s) => Ok(again(fs.push(code_fragment(s, start, end)))),
        EventView::Start(TagView::Link(_, _)) => Ok(again(fs).push(FrameView::Link(seq![]))),
        EventView::Start(TagView::Strikethrough) => Ok(again(fs).push(FrameView::Strikethrough)),
        EventView::Start(TagView::Strong) => Ok(again(fs)),
        EventView::End(TagView::Strong) => Ok(again(fs)),
        EventView::Start(TagView::Emphasis) => Ok(again(fs)),
        EventView::End(TagView::Emphasis) => Ok(again(fs)),
        EventView::SoftBreak => Ok(again(add_soft_break(fs))),
        _ => Err(ErrorKind::InvalidContext),
    }
}

/// Event in a code block frame; `x` is the state with that frame popped.
pub open spec fn code_block_event(
    language: Option<Seq<char>>,
    code: Option<Seq<char>>,
    code_start: int,
    code_end: int,
    x: ExtractorView,
    e: EventView,
) -> Result<ExtractorView, ErrorKind> {
    match e {
        EventView::End(TagView::CodeBlock(_)) => match code {
            Some(c) => Ok(
                x.emit(BlockView::Code { language, code: c, start: code_start, end: code_end }),
            ),
            None => Err(ErrorKind::InvalidData),
        },
        EventView::Text(s) => if code is None {
            Ok(
                x.push(
                    FrameView::CodeBlock {
                        language,
                        code: Some(s),
                        start: code_start,
                        end: code_end,
                    },
                ),
            )
        } else {
            Err(ErrorKind::InvalidContext)
        },
        _ => Err(ErrorKind::InvalidContext),
    }
}

/// Hands a fragment to the paragraph on top of the stack.
pub open spec fn fragment_event(x: ExtractorView, f: FragmentView) -> Result<ExtractorView, ErrorKind> {
    if x.stack.len() > 0 && x.stack.last() is Paragraph {
        let item = x.stack.last()->item;
        let fs = x.stack.last()->fragments;
        Ok(x.pop().push(FrameView::Paragraph { item, fragments: add_fragment(fs, f) }))
    } else {
        Err(ErrorKind::InvalidContext)
    }
}

/// Hands fragments, in order, to the paragraph on top of the stack.
pub open spec fn feed_fragments(x: ExtractorView, fs: Seq<FragmentView>) -> Result<
    ExtractorView,
    ErrorKind,
>
    decreases fs.len(),
{
    if fs.len() == 0 {
        Ok(x)
    } else {
        match feed_fragments(x, fs.drop_last()) {
            Ok(y) => fragment_event(y, fs.last()),
            Err(k) => Err(k),
        }
    }
}

/// What a link without content stands for: its title, or else its URL.
pub open spec fn link_substitute(url: Seq<char>, title: Seq<char>, start: int, end: int) -> FragmentView {
    if title.len() == 0 {
        FragmentView { content: ContentView::Url(url), start, end }
    } else {
        text_fragment(title, start, end)
    }
}

/// Event in a link frame; `x` is the state with that frame popped.
pub open spec fn link_event(
    fs: Seq<FragmentView>,
    x: ExtractorView,
    e: EventView,
    start: int,
    end: int,
) -> Result<ExtractorView, ErrorKind> {
    match e {
        EventView::End(TagView::Link(url, title)) => if fs.len() == 0 {
            feed_fragments(x, seq![link_substitute(url, title, start, end)])
        } else {
            feed_fragments(x, fs)
        },
        EventView::Text(s) => Ok(x.push(FrameView::Link(fs.push(text_fragment(s, start, end))))),
        EventView::Code(s) => Ok(x.push(FrameView::Link(fs.push(code_fragment(s, start, end))))),
        _ => Err(ErrorKind::InvalidContext),
    }
}

/// Event in a strikethrough frame; `x` is the state with that frame popped.
pub open spec fn strikethrough_event(x: ExtractorView, e: EventView) -> Result<ExtractorView, ErrorKind> {
    match e {
        EventView::End(TagView::Strikethrough) => Ok(x),
        EventView::Text(_) => Ok(x.push(FrameView::Strikethrough)),
        EventView::Code(_) => Ok(x.push(FrameView::Strikethrough)),
        _ => Err(ErrorKind::InvalidContext),
    }
}

/// Event in the frame `top`; `x` is the state with that frame popped.
pub open spec fn frame_event(top: FrameView, x: ExtractorView, e: EventView, start: int, end: int) -> Result<
    ExtractorView,
    ErrorKind,
> {
    match top {
        FrameView::Blank => blank_event(x, e, start, end),
        FrameView::Paragraph { item, fragments } => paragraph_event(item, fragments, x, e, start, end),
        FrameView::CodeBlock { language, code, start: s, end: t } => code_block_event(
            language,
            code,
            s,
            t,
            x,
            e,
        ),
        FrameView::Link(fs) => link_event(fs, x, e, start, end),
        FrameView::Strikethrough => strikethrough_event(x, e),
    }
}

/// One event: the frame on top of the stack handles it.
pub open spec fn step_event(x: ExtractorView, e: RangedEventView) -> Result<ExtractorView, ErrorKind> {
    if x.stack.len() == 0 {
        Err(ErrorKind::InvalidContext)
    } else {
        frame_event(x.stack.last(), x.pop(), e.0, e.1, e.2)
    }
}

/// Runs the extractor over events; the first error stops it.
pub open spec fn run_events(es: Seq<RangedEventView>) -> Result<ExtractorView, ErrorKind>
    decreases es.len(),
{
    if es.len() == 0 {
        Ok(initial_extractor())
    } else {
        match run_events(es.drop_last()) {
            Ok(x) => step_event(x, es.last()),
            Err(k) => Err(k),
        }
    }
}

/// The end of the events: only the initial blank frame may be left.
pub open spec fn finish_extractor(x: ExtractorView) -> Result<Seq<BlockView>, ErrorKind> {
    if x.stack.len() == 1 && x.stack[0] is Blank {
        Ok(x.blocks)
    } else {
        Err(ErrorKind::InvalidContext)
    }
}

/// Text blocks of a stream of Markdown events.
pub open spec fn blocks_of_events(es: Seq<RangedEventView>) -> Result<Seq<BlockView>, ErrorKind> {
    match run_events(es) {
        Ok(x) => finish_extractor(x),
        Err(k) => Err(k),
    }
}

/// `r` and the state `after` are what `expected` describes.
pub open spec fn step_outcome(
    r: Result<(), Error>,
    after: ExtractorView,
    expected: Result<ExtractorView, ErrorKind>,
) -> bool {
    match expected {
        Ok(x) => r is Ok && after == x,
        Err(k) => match r {
            Ok(_) => false,
            Err(e) => e.kind() == k,
        },
    }
}

// Adds a fragment to the fragments of a paragraph, merging contiguous texts.
fn add_fragment_to(fragments: &mut Vec<Fragment>, fragment: Fragment)
    ensures
        fragments_view(final(fragments)@) == add_fragment(
            fragments_view(old(fragments)@),
            fragment_view(fragment),
        ),
{
    let ghost before = fragments_view(fragments@);
    let n = fragments.len();
    if fragment.0.is_text() && n > 0 && fragments[n - 1].0.is_text() {
        match fragments.pop() {
            Some((last, last_range)) => {
                assert(fragments_view(fragments@) =~= before.drop_last());
                let mut text = last.text().clone();
                text.append(fragment.0.text().as_str());
                fragments.push((FragmentContent::Text(text), last_range.start..fragment.1.end));
            },
            None => {},
        }
    } else {
        fragments.push(fragment);
    }
    assert(fragments_view(fragments@) =~= add_fragment(before, fragment_view(fragment)));
}

fn push_fragment(fragments: &mut Vec<Fragment>, fragment: Fragment)
    ensures
        fragments_view(final(fragments)@) == fragments_view(old(fragments)@).push(
            fragment_view(fragment),
        ),
{
    fragments.push(fragment);
    assert(fragments_view(fragments@) =~= fragments_view(old(fragments)@).push(
        fragment_view(fragment),
    ));
}

// Appends a line break to the last fragment if it is a text fragment.
fn add_soft_break_to(fragments: &mut Vec<Fragment>)
    ensures
        fragments_view(final(fragments)@) == add_soft_break(fragments_view(old(fragments)@)),
{
    let ghost before = fragments_view(fragments@);
    let n = fragments.len();
    if n > 0 && fragments[n - 1].0.is_text() {
        match fragments.pop() {
            Some((last, last_range)) => {
                assert(fragments_view(fragments@) =~= before.drop_last());
                let mut text = last.text().clone();
                push_char(&mut text, '\n');
                fragments.push((FragmentContent::Text(text), last_range));
            },
            None => {},
        }
    }
    assert(fragments_view(fragments@) =~= add_soft_break(before));
}

#[derive(Debug)]
enum ParagraphType {
    // Paragraph.
    Paragraph,
    // List item.
    Item,
}

#[derive(Debug)]
enum TextBlockExtractorState {
    // Expecting a Markdown block to start.
    Blank,
    // Collecting the contents of a paragraph or a list item.
    Paragraph { paragraph_type: ParagraphType, fragments: Vec<Fragment> },
    // Expecting the code of a code block; `code` is `None` until its text.
    CodeBlock { language: Option<String>, code: Option<String>, range: Range<usize> },
    // Collecting the contents of a link.
    Link(Vec<Fragment>),
    // Skipping the contents of a strikethrough.
    Strikethrough,
}

impl View for TextBlockExtractorState {
    type V = FrameView;

    closed spec fn view(&self) -> FrameView {
        match self {
            TextBlockExtractorState::Blank => FrameView::Blank,
            TextBlockExtractorState::Paragraph { paragraph_type, fragments } => FrameView::Paragraph {
                item: *paragraph_type is Item,
                fragments: fragments_view(fragments@),
            },
            TextBlockExtractorState::CodeBlock { language, code, range } => FrameView::CodeBlock {
                language: option_string_view(*language),
                code: option_string_view(*code),
                start: range.start as int,
                end: range.end as int,
            },
            TextBlockExtractorState::Link(fragments) => FrameView::Link(fragments_view(fragments@)),
            TextBlockExtractorState::Strikethrough => FrameView::Strikethrough,
        }
    }
}

pub(crate) struct TextBlockExtractor {
    state_stack: Vec<TextBlockExtractorState>,
    text_blocks: Vec<TextBlock>,
}

impl View for TextBlockExtractor {
    type V = ExtractorView;

    closed spec fn view(&self) -> ExtractorView {
        ExtractorView {
            stack: self.state_stack@.map_values(|f: TextBlockExtractorState| f@),
            blocks: blocks_view(self.text_blocks@),
        }
    }
}

impl TextBlockExtractor {
    pub(crate) fn new() -> (r: Self)
        ensures
            r@ == initial_extractor(),
    {
        let mut state_stack: Vec<TextBlockExtractorState> = Vec::new();
        state_stack.push(TextBlockExtractorState::Blank);
        let r = TextBlockExtractor { state_stack, text_blocks: Vec::new() };
        assert(r@.stack =~= initial_extractor().stack);
        assert(r@.blocks =~= initial_extractor().blocks);
        r
    }

    fn push_state(&mut self, state: TextBlockExtractorState)
        ensures
            final(self)@ == old(self)@.push(state@),
    {
        self.state_stack.push(state);
        assert(self@.stack =~= old(self)@.push(state@).stack);
    }

    fn pop_state(&mut self) -> (r: Option<TextBlockExtractorState>)
        ensures
            old(self)@.stack.len() == 0 ==> r is None,
            old(self)@.stack.len() > 0 ==> (r matches Some(f) && f@ == old(self)@.stack.last()
                && final(self)@ == old(self)@.pop()),
    {
        let r = self.state_stack.pop();
        proof {
            if old(self)@.stack.len() > 0 {
                assert(self@.stack =~= old(self)@.pop().stack);
            }
        }
        r
    }

    fn emit(&mut self, block: TextBlock)
        ensures
            final(self)@ == old(self)@.emit(block@),
    {
        self.text_blocks.push(block);
        assert(self@.blocks =~= old(self)@.emit(block@).blocks);
    }
}

fn invalid_context(message: &str) -> (r: Error)
    ensures
        r.kind() == ErrorKind::InvalidContext,
{
    Error::InvalidContext(String::from_str(message))
}

fn copy_fragment(fragment: &Fragment) -> (r: Fragment)
    ensures
        fragment_view(r) == fragment_view(*fragment),
{
    let content = match &fragment.0 {
        FragmentContent::Text(s) => FragmentContent::Text(s.clone()),
        FragmentContent::Code(s) => FragmentContent::Code(s.clone()),
        FragmentContent::Url(s) => FragmentContent::Url(s.clone()),
    };
    (content, fragment.1.start..fragment.1.end)
}

impl TextBlockExtractorState {
    fn new_paragraph(paragraph_type: ParagraphType) -> (r: Self)
        ensures
            r@ == (FrameView::Paragraph { item: paragraph_type is Item, fragments: seq![] }),
    {
        let fragments: Vec<Fragment> = Vec::new();
        assert(fragments_view(fragments@) =~= seq![]);
        TextBlockExtractorState::Paragraph { paragraph_type, fragments }
    }

    fn process_event(
        self,
        extractor: &mut TextBlockExtractor,
        event: MarkdownEvent,
        range: Range<usize>,
    ) -> (r: Result<(), Error>)
        ensures
            step_outcome(
                r,
                final(extractor)@,
                frame_event(self@, old(extractor)@, event@, range.start as int, range.end as int),
            ),
    {
        match self {
            TextBlockExtractorState::Blank => Self::blank_process_event(extractor, event, range),
            TextBlockExtractorState::Paragraph { paragraph_type, fragments } => {
                Self::paragraph_process_event(paragraph_type, fragments, extractor, event, range)
            },
            TextBlockExtractorState::CodeBlock { language, code, range: code_range } => {
                Self::code_block_process_event(language, code, code_range, extractor, event)
            },
            TextBlockExtractorState::Link(fragments) => {
                Self::link_process_event(fragments, extractor, event, range)
            },
            TextBlockExtractorState::Strikethrough => {
                Self::strikethrough_process_event(extractor, event)
            },
        }
    }

    fn blank_process_event(
        extractor: &mut TextBlockExtractor,
        event: MarkdownEvent,
        range: Range<usize>,
    ) -> (r: Result<(), Error>)
        ensures
            step_outcome(
                r,
                final(extractor)@,
                blank_event(old(extractor)@, event@, range.start as int, range.end as int),
            ),
    {
        match event {
            MarkdownEvent::Start(MarkdownTag::Paragraph) => {
                extractor.push_state(TextBlockExtractorState::Blank);
                extractor.push_state(Self::new_paragraph(ParagraphType::Paragraph));
                Ok(())
            },
            MarkdownEvent::Start(MarkdownTag::CodeBlock(language)) => {
                extractor.push_state(TextBlockExtractorState::Blank);
                extractor.push_state(
                    TextBlockExtractorState::CodeBlock { language, code: None, range },
                );
                Ok(())
            },
            MarkdownEvent::Start(MarkdownTag::BlockQuote) => {
                extractor.push_state(TextBlockExtractorState::Blank);
                // processes a nested Markdown structure
                extractor.push_state(TextBlockExtractorState::Blank);
                Ok(())
            },
            MarkdownEvent::End(MarkdownTag::BlockQuote) => Ok(()),
            MarkdownEvent::Start(MarkdownTag::List) => {
                extractor.push_state(TextBlockExtractorState::Blank);
                // processes a nested Markdown structure
                extractor.push_state(TextBlockExtractorState::Blank);
                Ok(())
            },
            MarkdownEvent::End(MarkdownTag::List) => Ok(()),
            MarkdownEvent::Start(MarkdownTag::Item) => {
                extractor.push_state(TextBlockExtractorState::Blank);
                extractor.push_state(Self::new_paragraph(ParagraphType::Item));
                Ok(())
            },
            _ => Err(invalid_context("Markdown content must start")),
        }
    }

    fn paragraph_process_event(
        paragraph_type: ParagraphType,
        fragments: Vec<Fragment>,
        extractor: &mut TextBlockExtractor,
        event: MarkdownEvent,
        range: Range<usize>,
    ) -> (r: Result<(), Error>)
        ensures
            step_outcome(
                r,
                final(extractor)@,
                paragraph_event(
                    paragraph_type is Item,
                    fragments_view(fragments@),
                    old(extractor)@,
                    event@,
                    range.start as int,
                    range.end as int,
                ),
            ),
    {
        let mut fragments = fragments;
        match event {
            MarkdownEvent::End(MarkdownTag::Paragraph) => match paragraph_type {
                ParagraphType::Paragraph => {
                    extractor.emit(TextBlock::Text(fragments));
                    Ok(())
                },
                _ => Err(invalid_context("paragraph end is expected")),
            },
            MarkdownEvent::End(MarkdownTag::Item) => match paragraph_type {
                ParagraphType::Item => {
                    extractor.emit(TextBlock::Text(fragments));
                    Ok(())
                },
                _ => Err(invalid_context("item end is expected")),
            },
            MarkdownEvent::HardBreak => {
                // ends the current block and starts a new one
                extractor.emit(TextBlock::Text(fragments));
                extractor.push_state(Self::new_paragraph(paragraph_type));
                Ok(())
            },
            MarkdownEvent::Text(text) => {
                add_fragment_to(&mut fragments, (FragmentContent::Text(text), range));
                extractor.push_state(TextBlockExtractorState::Paragraph { paragraph_type, fragments });
                Ok(())
            },
            MarkdownEvent::Code(code) => {
                push_fragment(&mut fragments, (FragmentContent::Code(code), range));
                extractor.push_state(TextBlockExtractorState::Paragraph { paragraph_type, fragments });
                Ok(())
            },
            MarkdownEvent::Html(code) => {
                push_fragment(&mut fragments, (FragmentContent::Code(code), range));
                extractor.push_state(TextBlockExtractorState::Paragraph { paragraph_type, fragments });
                Ok(())
            },
            MarkdownEvent::Start(MarkdownTag::Link(_, _)) => {
                extractor.push_state(TextBlockExtractorState::Paragraph { paragraph_type, fragments });
                let link: Vec<Fragment> = Vec::new();
                assert(fragments_view(link@) =~= seq![]);
                extractor.push_state(TextBlockExtractorState::Link(link));
                Ok(())
            },
            MarkdownEvent::Start(MarkdownTag::Strikethrough) => {
                extractor.push_state(TextBlockExtractorState::Paragraph { paragraph_type, fragments });
                extractor.push_state(TextBlockExtractorState::Strikethrough);
                Ok(())
            },
            MarkdownEvent::Start(MarkdownTag::Strong)
            | MarkdownEvent::End(MarkdownTag::Strong)
            | MarkdownEvent::Start(MarkdownTag::Emphasis)
            | MarkdownEvent::End(MarkdownTag::Emphasis) => {
                // decoration does not matter
                extractor.push_state(TextBlockExtractorState::Paragraph { paragraph_type, fragments });
                Ok(())
            },
            MarkdownEvent::SoftBreak => {
                // a line break is kept in a text fragment only
                add_soft_break_to(&mut fragments);
                extractor.push_state(TextBlockExtractorState::Paragraph { paragraph_type, fragments });
                Ok(())
            },
            _ => Err(invalid_context("unexpected event in a paragraph")),
        }
    }

    fn code_block_process_event(
        language: Option<String>,
        code: Option<String>,
        code_range: Range<usize>,
        extractor: &mut TextBlockExtractor,
        event: MarkdownEvent,
    ) -> (r: Result<(), Error>)
        ensures
            step_outcome(
                r,
                final(extractor)@,
                code_block_event(
                    option_string_view(language),
                    option_string_view(code),
                    code_range.start as int,
                    code_range.end as int,
                    old(extractor)@,
                    event@,
                ),
            ),
    {
        match event {
            MarkdownEvent::End(MarkdownTag::CodeBlock(_)) => match code {
                Some(code) => {
                    extractor.emit(TextBlock::Code { language, code, range: code_range });
                    Ok(())
                },
                None => Err(Error::InvalidData(String::from_str("code block must have a code"))),
            },
            MarkdownEvent::Text(new_code) => {
                if code.is_none() {
                    extractor.push_state(
                        TextBlockExtractorState::CodeBlock {
                            language,
                            code: Some(new_code),
                            range: code_range,
                        },
                    );
                    Ok(())
                } else {
                    Err(invalid_context("code block has multiple code"))
                }
            },
            _ => Err(invalid_context("unexpected event in a code block")),
        }
    }

    fn link_process_event(
        fragments: Vec<Fragment>,
        extractor: &mut TextBlockExtractor,
        event: MarkdownEvent,
        range: Range<usize>,
    ) -> (r: Result<(), Error>)
        ensures
            step_outcome(
                r,
                final(extractor)@,
                link_event(
                    fragments_view(fragments@),
                    old(extractor)@,
                    event@,
                    range.start as int,
                    range.end as int,
                ),
            ),
    {
        let mut fragments = fragments;
        match event {
            MarkdownEvent::End(MarkdownTag::Link(url, title)) => {
                // a link without content stands for its title, or else its URL
                if fragments.len() == 0 {
                    if title.as_str().is_empty() {
                        push_fragment(&mut fragments, (FragmentContent::Url(url), range));
                    } else {
                        push_fragment(&mut fragments, (FragmentContent::Text(title), range));
                    }
                    assert(fragments_view(fragments@) =~= seq![
                        link_substitute(url@, title@, range.start as int, range.end as int),
                    ]);
                }
                extractor.feed_fragments(&fragments)
            },
            MarkdownEvent::Text(text) => {
                push_fragment(&mut fragments, (FragmentContent::Text(text), range));
                extractor.push_state(TextBlockExtractorState::Link(fragments));
                Ok(())
            },
            MarkdownEvent::Code(code) => {
                push_fragment(&mut fragments, (FragmentContent::Code(code), range));
                extractor.push_state(TextBlockExtractorState::Link(fragments));
                Ok(())
            },
            _ => Err(invalid_context("unexpected event in a link")),
        }
    }

    fn strikethrough_process_event(extractor: &mut TextBlockExtractor, event: MarkdownEvent) -> (r:
        Result<(), Error>)
        ensures
            step_outcome(r, final(extractor)@, strikethrough_event(old(extractor)@, event@)),
    {
        match event {
            MarkdownEvent::End(MarkdownTag::Strikethrough) => Ok(()),
            MarkdownEvent::Text(_) | MarkdownEvent::Code(_) => {
                extractor.push_state(TextBlockExtractorState::Strikethrough);
                Ok(())
            },
            _ => Err(invalid_context("not allowed in strikethrough")),
        }
    }

    fn process_fragment(self, extractor: &mut TextBlockExtractor, fragment: Fragment) -> (r: Result<
        (),
        Error,
    >)
        ensures
            step_outcome(
                r,
                final(extractor)@,
                fragment_event(old(extractor)@.push(self@), fragment_view(fragment)),
            ),
    {
        assert(old(extractor)@.push(self@).pop().stack =~= old(extractor)@.stack);
        match self {
            TextBlockExtractorState::Paragraph { paragraph_type, fragments } => {
                Self::paragraph_process_fragment(paragraph_type, fragments, extractor, fragment);
                Ok(())
            },
            _ => Err(invalid_context("nested fragment is not allowed")),
        }
    }

    fn paragraph_process_fragment(
        paragraph_type: ParagraphType,
        fragments: Vec<Fragment>,
        extractor: &mut TextBlockExtractor,
        fragment: Fragment,
    )
        ensures
            final(extractor)@ == old(extractor)@.push(
                FrameView::Paragraph {
                    item: paragraph_type is Item,
                    fragments: add_fragment(fragments_view(fragments@), fragment_view(fragment)),
                },
            ),
    {
        let mut fragments = fragments;
        add_fragment_to(&mut fragments, fragment);
        extractor.push_state(TextBlockExtractorState::Paragraph { paragraph_type, fragments });
    }
}

impl TextBlockExtractor {
    pub(crate) fn process_event(&mut self, event: MarkdownEvent, range: Range<usize>) -> (r: Result<
        (),
        Error,
    >)
        ensures
            step_outcome(
                r,
                final(self)@,
                step_event(old(self)@, (event@, range.start as int, range.end as int)),
            ),
    {
        match self.pop_state() {
            Some(state) => state.process_event(self, event, range),
            None => Err(invalid_context("Markdown processing is in an undefined state")),
        }
    }

    fn process_fragment(&mut self, fragment: Fragment) -> (r: Result<(), Error>)
        ensures
            step_outcome(r, final(self)@, fragment_event(old(self)@, fragment_view(fragment))),
    {
        let ghost before = self@;
        let popped = self.pop_state();
        proof {
            if before.stack.len() > 0 {
                assert(before.pop().push(before.stack.last()).stack =~= before.stack);
            }
        }
        match popped {
            Some(state) => state.process_fragment(self, fragment),
            None => Err(invalid_context("Markdown processing is in an undefined state")),
        }
    }

    // Hands fragments, in order, to the paragraph on top of the stack.
    fn feed_fragments(&mut self, fragments: &Vec<Fragment>) -> (r: Result<(), Error>)
        ensures
            step_outcome(r, final(self)@, feed_fragments(old(self)@, fragments_view(fragments@))),
    {
        let ghost fs = fragments_view(fragments@);
        let mut i: usize = 0;
        while i < fragments.len()
            invariant
                i <= fragments.len(),
                fs == fragments_view(fragments@),
                feed_fragments(old(self)@, fs.take(i as int)) == Ok::<ExtractorView, ErrorKind>(
                    self@,
                ),
            decreases fragments.len() - i,
        {
            proof {
                assert(fs.take(i + 1).drop_last() =~= fs.take(i as int));
            }
            let fragment = copy_fragment(&fragments[i]);
            let r = self.process_fragment(fragment);
            if r.is_err() {
                proof {
                    lemma_feed_error(old(self)@, fs, i as int + 1);
                }
                return r;
            }
            i = i + 1;
        }
        proof {
            assert(fs.take(fs.len() as int) =~= fs);
        }
        Ok(())
    }

    pub(crate) fn finish(self) -> (r: Result<Vec<TextBlock>, Error>)
        ensures
            match finish_extractor(self@) {
                Ok(bs) => r matches Ok(v) && blocks_view(v@) == bs,
                Err(k) => r matches Err(e) && e.kind() == k,
            },
    {
        let mut this = self;
        let ghost before = this@;
        let popped = this.pop_state();
        proof {
            if before.stack.len() == 1 {
                assert(before.stack[0] == before.stack.last());
            }
        }
        match popped {
            Some(TextBlockExtractorState::Blank) => {
                if this.state_stack.len() == 0 {
                    assert(this@.stack.len() == 0);
                    Ok(this.text_blocks)
                } else {
                    assert(this@.stack.len() == this.state_stack@.len());
                    Err(invalid_context("Markdown processing prematurely ended"))
                }
            },
            Some(_) => Err(invalid_context("Markdown processing prematurely ended")),
            None => Err(invalid_context("Markdown processing is in an undefined state")),
        }
    }
}

/// Once feeding fragments fails, feeding more of them fails the same way.
proof fn lemma_feed_error(x: ExtractorView, fs: Seq<FragmentView>, i: int)
    requires
        0 < i <= fs.len(),
        feed_fragments(x, fs.take(i)) is Err,
    ensures
        feed_fragments(x, fs) == feed_fragments(x, fs.take(i)),
    decreases fs.len() - i,
{
    if i < fs.len() {
        assert(fs.take(i + 1).drop_last() =~= fs.take(i));
        lemma_feed_error(x, fs, i + 1);
    } else {
        assert(fs.take(i) =~= fs);
    }
}

} // verus!
