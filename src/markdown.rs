//! Text blocks of a Markdown document.

use core::ops::Range;
use pulldown_cmark::{CodeBlockKind, Event, Options, Parser, Tag};
use vstd::prelude::*;

use crate::error::{Error, ErrorKind};
use crate::extractor::{blocks_of_events, run_events, ExtractorView, TextBlockExtractor};

verus! {

/// Content of a fragment in a text block.
///
/// The kind matters to sentence segmentation: no sentence is split in the
/// middle of a code or URL fragment.
#[derive(Clone, Debug, PartialEq)]
pub enum FragmentContent {
    /// Ordinary text.
    Text(String),
    /// Inline code or inline HTML.
    Code(String),
    /// URL.
    Url(String),
}

/// Fragment in a text block: its content and its range in the input.
pub type Fragment = (FragmentContent, Range<usize>);

/// Text block in a Markdown text.
#[derive(Debug, PartialEq)]
pub enum TextBlock {
    /// Paragraph-like block: a paragraph, part of one between hard breaks,
    /// or a list item.
    Text(Vec<Fragment>),
    /// Code block.
    Code {
        /// Info string of a fenced code block; `None` for an indented one.
        language: Option<String>,
        /// Code.
        code: String,
        /// Range in the input.
        range: Range<usize>,
    },
}

/// Abstract content of a fragment.
pub enum ContentView {
    Text(Seq<char>),
    Code(Seq<char>),
    Url(Seq<char>),
}

impl ContentView {
    pub open spec fn chars(self) -> Seq<char> {
        match self {
            ContentView::Text(s) => s,
            ContentView::Code(s) => s,
            ContentView::Url(s) => s,
        }
    }
}

/// Abstract fragment: content and the half-open range `[start, end)`.
pub struct FragmentView {
    pub content: ContentView,
    pub start: int,
    pub end: int,
}

/// Abstract text block.
pub enum BlockView {
    Text(Seq<FragmentView>),
    Code { language: Option<Seq<char>>, code: Seq<char>, start: int, end: int },
}

impl View for FragmentContent {
    type V = ContentView;

    open spec fn view(&self) -> ContentView {
        match self {
            FragmentContent::Text(s) => ContentView::Text(s@),
            FragmentContent::Code(s) => ContentView::Code(s@),
            FragmentContent::Url(s) => ContentView::Url(s@),
        }
    }
}

pub open spec fn fragment_view(f: Fragment) -> FragmentView {
    FragmentView { content: f.0@, start: f.1.start as int, end: f.1.end as int }
}

pub open spec fn fragments_view(fs: Seq<Fragment>) -> Seq<FragmentView> {
    fs.map_values(|f: Fragment| fragment_view(f))
}

pub open spec fn option_string_view(o: Option<String>) -> Option<Seq<char>> {
    match o {
        Some(s) => Some(s@),
        None => None,
    }
}

impl View for TextBlock {
    type V = BlockView;

    open spec fn view(&self) -> BlockView {
        match self {
            TextBlock::Text(fs) => BlockView::Text(fragments_view(fs@)),
            TextBlock::Code { language, code, range } => BlockView::Code {
                language: option_string_view(*language),
                code: code@,
                start: range.start as int,
                end: range.end as int,
            },
        }
    }
}

impl FragmentContent {
    /// Returns the content as a text.
    pub fn text(&self) -> (r: &String)
        ensures
            r@ == self@.chars(),
    {
        match self {
            FragmentContent::Text(text) => text,
            FragmentContent::Code(code) => code,
            FragmentContent::Url(url) => url,
        }
    }

    /// Returns if it is an ordinary text.
    pub fn is_text(&self) -> (r: bool)
        ensures
            r == (self@ is Text),
    {
        match self {
            FragmentContent::Text(_) => true,
            _ => false,
        }
    }
}

/// Element of a Markdown document that an event starts or ends.
#[derive(Debug)]
pub enum MarkdownTag {
    Paragraph,
    /// Code block, with the info string of a fenced one.
    CodeBlock(Option<String>),
    BlockQuote,
    List,
    Item,
    /// Link, with its destination and its title.
    Link(String, String),
    Strikethrough,
    Strong,
    Emphasis,
    /// Any other element: heading, table and its parts, image, footnote
    /// definition.
    Other,
}

/// Event of a Markdown parser.
#[derive(Debug)]
pub enum MarkdownEvent {
    Start(MarkdownTag),
    End(MarkdownTag),
    /// Text.
    Text(String),
    /// Inline code.
    Code(String),
    /// Raw HTML.
    Html(String),
    SoftBreak,
    HardBreak,
    /// Any other event: rule, footnote reference, task list marker.
    Other,
}

pub enum TagView {
    Paragraph,
    CodeBlock(Option<Seq<char>>),
    BlockQuote,
    List,
    Item,
    Link(Seq<char>, Seq<char>),
    Strikethrough,
    Strong,
    Emphasis,
    Other,
}

pub enum EventView {
    Start(TagView),
    End(TagView),
    Text(Seq<char>),
    Code(Seq<char>),
    Html(Seq<char>),
    SoftBreak,
    HardBreak,
    Other,
}

impl View for MarkdownTag {
    type V = TagView;

    open spec fn view(&self) -> TagView {
        match self {
            MarkdownTag::Paragraph => TagView::Paragraph,
            MarkdownTag::CodeBlock(l) => TagView::CodeBlock(option_string_view(*l)),
            MarkdownTag::BlockQuote => TagView::BlockQuote,
            MarkdownTag::List => TagView::List,
            MarkdownTag::Item => TagView::Item,
            MarkdownTag::Link(url, title) => TagView::Link(url@, title@),
            MarkdownTag::Strikethrough => TagView::Strikethrough,
            MarkdownTag::Strong => TagView::Strong,
            MarkdownTag::Emphasis => TagView::Emphasis,
            MarkdownTag::Other => TagView::Other,
        }
    }
}

impl View for MarkdownEvent {
    type V = EventView;

    open spec fn view(&self) -> EventView {
        match self {
            MarkdownEvent::Start(t) => EventView::Start(t@),
            MarkdownEvent::End(t) => EventView::End(t@),
            MarkdownEvent::Text(s) => EventView::Text(s@),
            MarkdownEvent::Code(s) => EventView::Code(s@),
            MarkdownEvent::Html(s) => EventView::Html(s@),
            MarkdownEvent::SoftBreak => EventView::SoftBreak,
            MarkdownEvent::HardBreak => EventView::HardBreak,
            MarkdownEvent::Other => EventView::Other,
        }
    }
}

/// An event with its range `[start, end)` in the source.
pub type RangedEventView = (EventView, int, int);

pub open spec fn events_view(es: Seq<(MarkdownEvent, Range<usize>)>) -> Seq<RangedEventView> {
    es.map_values(|e: (MarkdownEvent, Range<usize>)| (e.0@, e.1.start as int, e.1.end as int))
}

pub open spec fn blocks_view(bs: Seq<TextBlock>) -> Seq<BlockView> {
    bs.map_values(|b: TextBlock| b@)
}

/// Relies on `String::push`: appends one character.
#[verifier::external_body]
pub(crate) fn push_char(s: &mut String, c: char)
    ensures
        final(s)@ == old(s)@.push(c),
{
    s.push(c);
}

/// Once the extractor fails, later events leave the failure as it is.
proof fn lemma_run_error(es: Seq<RangedEventView>, i: int)
    requires
        0 < i <= es.len(),
        run_events(es.take(i)) is Err,
    ensures
        run_events(es) == run_events(es.take(i)),
    decreases es.len() - i,
{
    if i < es.len() {
        assert(es.take(i + 1).drop_last() =~= es.take(i));
        lemma_run_error(es, i + 1);
    } else {
        assert(es.take(i) =~= es);
    }
}

/// Extracts the text blocks of a stream of Markdown events.
///
/// Each paragraph, each part of a paragraph between hard breaks, each list
/// item and each code block is a text block. Contiguous texts in a block are
/// concatenated.
pub fn extract_text_blocks_from_events(events: Vec<(MarkdownEvent, Range<usize>)>) -> (r: Result<
    Vec<TextBlock>,
    Error,
>)
    ensures
        match blocks_of_events(events_view(events@)) {
            Ok(bs) => r matches Ok(v) && blocks_view(v@) == bs,
            Err(k) => r matches Err(e) && e.kind() == k,
        },
{
    let ghost es = events_view(events@);
    let mut extractor = TextBlockExtractor::new();
    for item in it: events.into_iter()
        invariant
            es == events_view(it.seq()),
            run_events(es.take(it.index() as int)) == Ok::<ExtractorView, ErrorKind>(extractor@),
    {
        let ghost i = it.index() as int;
        let (event, range) = item;
        proof {
            assert(es.take(i + 1).drop_last() =~= es.take(i));
            assert(es[i] == (event@, range.start as int, range.end as int));
        }
        match extractor.process_event(event, range) {
            Ok(()) => {},
            Err(e) => {
                proof {
                    lemma_run_error(es, i + 1);
                }
                return Err(e);
            },
        }
    }
    proof {
        assert(es.take(es.len() as int) =~= es);
    }
    extractor.finish()
}

/// pulldown-cmark's `Event`, opaque here: only the converter below reads it.
#[verifier::external_type_specification]
#[verifier::external_body]
pub struct ExEvent<'a>(Event<'a>);

/// pulldown-cmark's `Tag`, opaque here: only the converter below reads it.
#[verifier::external_type_specification]
#[verifier::external_body]
pub struct ExTag<'a>(Tag<'a>);

/// The events, each with its byte range, that pulldown-cmark reads from a
/// text with tables, strikethrough and task lists enabled.
pub uninterp spec fn markdown_events(text: Seq<char>) -> Seq<RangedEventView>;

/// Relies on `pulldown_cmark::Parser::new_ext` and `into_offset_iter`: the
/// events, with their ranges, are a function of the text alone.
#[verifier::external_body]
fn parse_markdown(text: &str) -> (r: Vec<(MarkdownEvent, Range<usize>)>)
    ensures
        events_view(r@) == markdown_events(text@),
{
    let options = Options::ENABLE_TABLES | Options::ENABLE_STRIKETHROUGH
        | Options::ENABLE_TASKLISTS;
    let mut events = Vec::new();
    for (event, range) in Parser::new_ext(text, options).into_offset_iter() {
        events.push((event_from(event), range));
    }
    events
}

/// Converts pulldown-cmark's `Event` into the library's event, variant for
/// variant; `CowStr::into_string` gives the strings.
#[verifier::external_body]
fn event_from(event: Event<'_>) -> MarkdownEvent {
    match event {
        Event::Start(tag) => MarkdownEvent::Start(tag_from(tag)),
        Event::End(tag) => MarkdownEvent::End(tag_from(tag)),
        Event::Text(s) => MarkdownEvent::Text(s.into_string()),
        Event::Code(s) => MarkdownEvent::Code(s.into_string()),
        Event::Html(s) => MarkdownEvent::Html(s.into_string()),
        Event::SoftBreak => MarkdownEvent::SoftBreak,
        Event::HardBreak => MarkdownEvent::HardBreak,
        _ => MarkdownEvent::Other,
    }
}

/// Converts pulldown-cmark's `Tag` into the library's tag, variant for
/// variant; `CowStr::into_string` gives the strings.
#[verifier::external_body]
fn tag_from(tag: Tag<'_>) -> MarkdownTag {
    match tag {
        Tag::Paragraph => MarkdownTag::Paragraph,
        Tag::CodeBlock(CodeBlockKind::Fenced(l)) => MarkdownTag::CodeBlock(Some(l.into_string())),
        Tag::CodeBlock(CodeBlockKind::Indented) => MarkdownTag::CodeBlock(None),
        Tag::BlockQuote => MarkdownTag::BlockQuote,
        Tag::List(_) => MarkdownTag::List,
        Tag::Item => MarkdownTag::Item,
        Tag::Link(_, url, title) => MarkdownTag::Link(url.into_string(), title.into_string()),
        Tag::Strikethrough => MarkdownTag::Strikethrough,
        Tag::Strong => MarkdownTag::Strong,
        Tag::Emphasis => MarkdownTag::Emphasis,
        _ => MarkdownTag::Other,
    }
}

/// Markdown text blocks of a text, as pulldown-cmark reads it.
pub open spec fn text_blocks_of(text: Seq<char>) -> Result<Seq<BlockView>, ErrorKind> {
    blocks_of_events(markdown_events(text))
}

/// Extracts the text blocks of a Markdown text.
///
/// Each paragraph, each part of a paragraph between hard breaks, each list
/// item and each code block is a text block. Contiguous texts in a block are
/// concatenated.
pub fn extract_text_blocks(text: &str) -> (r: Result<Vec<TextBlock>, Error>)
    ensures
        match text_blocks_of(text@) {
            Ok(bs) => r matches Ok(v) && blocks_view(v@) == bs,
            Err(k) => r matches Err(e) && e.kind() == k,
        },
{
    extract_text_blocks_from_events(parse_markdown(text))
}

} // verus!
