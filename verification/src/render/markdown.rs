//! Markdown parse events, as the renderers read them.

use vstd::prelude::*;

verus! {

/// The level of a heading.
#[derive(Clone, Copy, Debug, PartialEq, Eq, Structural)]
pub enum HeadingRank {
    H1,
    H2,
    H3,
    H4,
    H5,
    H6,
}

/// The alignment of a table column.
#[derive(Clone, Copy, Debug, PartialEq, Eq, Structural)]
pub enum ColumnAlign {
    /// No alignment given.
    Unaligned,
    Left,
    Center,
    Right,
}

/// An opening tag of a Markdown element. What the enabled extensions never fill (a
/// heading's id, classes and attributes, a block quote's kind) is not kept, nor the
/// reference label and link type of a link, but for whether it is an e-mail autolink.
#[derive(Debug)]
pub enum MdTag {
    Paragraph,
    Heading(HeadingRank),
    BlockQuote,
    /// A code block with the info string of its fence, or none when indented.
    CodeBlock(Option<String>),
    HtmlBlock,
    /// A list, numbered from the given value when ordered.
    List(Option<u64>),
    Item,
    FootnoteDefinition(String),
    DefinitionList,
    DefinitionListTitle,
    DefinitionListDefinition,
    /// A table with the alignment of each column.
    Table(Vec<ColumnAlign>),
    TableHead,
    TableRow,
    TableCell,
    Emphasis,
    Strong,
    Strikethrough,
    Superscript,
    Subscript,
    /// A link: whether it is an e-mail autolink, its destination and its title.
    Link(bool, String, String),
    /// An image: its destination and its title.
    Image(String, String),
    /// A metadata block, fenced by `---` (YAML style) when `true`, by `+++` otherwise.
    MetadataBlock(bool),
}

/// A closing tag of a Markdown element.
#[derive(Clone, Copy, Debug, PartialEq, Eq, Structural)]
pub enum MdTagEnd {
    Paragraph,
    Heading(HeadingRank),
    BlockQuote,
    CodeBlock,
    HtmlBlock,
    /// The end of a list, and whether it was ordered.
    List(bool),
    Item,
    FootnoteDefinition,
    DefinitionList,
    DefinitionListTitle,
    DefinitionListDefinition,
    Table,
    TableHead,
    TableRow,
    TableCell,
    Emphasis,
    Strong,
    Strikethrough,
    Superscript,
    Subscript,
    Link,
    Image,
    /// The end of a metadata block, YAML style when `true`.
    MetadataBlock(bool),
}

/// One Markdown parse event.
#[derive(Debug)]
pub enum MdEvent {
    Start(MdTag),
    End(MdTagEnd),
    Text(String),
    Code(String),
    InlineMath(String),
    DisplayMath(String),
    Html(String),
    InlineHtml(String),
    FootnoteReference(String),
    SoftBreak,
    HardBreak,
    Rule,
    TaskListMarker(bool),
}

/// The model of an opening tag.
pub enum TagV {
    Paragraph,
    Heading(HeadingRank),
    BlockQuote,
    CodeBlock(Option<Seq<char>>),
    HtmlBlock,
    List(Option<u64>),
    Item,
    FootnoteDefinition(Seq<char>),
    DefinitionList,
    DefinitionListTitle,
    DefinitionListDefinition,
    Table(Seq<ColumnAlign>),
    TableHead,
    TableRow,
    TableCell,
    Emphasis,
    Strong,
    Strikethrough,
    Superscript,
    Subscript,
    Link(bool, Seq<char>, Seq<char>),
    Image(Seq<char>, Seq<char>),
    MetadataBlock(bool),
}

/// The model of an event.
pub enum EventV {
    Start(TagV),
    End(MdTagEnd),
    Text(Seq<char>),
    Code(Seq<char>),
    InlineMath(Seq<char>),
    DisplayMath(Seq<char>),
    Html(Seq<char>),
    InlineHtml(Seq<char>),
    FootnoteReference(Seq<char>),
    SoftBreak,
    HardBreak,
    Rule,
    TaskListMarker(bool),
}

impl View for MdTag {
    type V = TagV;

    open spec fn view(&self) -> TagV {
        match self {
            MdTag::Paragraph => TagV::Paragraph,
            MdTag::Heading(r) => TagV::Heading(*r),
            MdTag::BlockQuote => TagV::BlockQuote,
            MdTag::CodeBlock(info) => TagV::CodeBlock(
                match info {
                    Some(s) => Some(s@),
                    None => None,
                },
            ),
            MdTag::HtmlBlock => TagV::HtmlBlock,
            MdTag::List(n) => TagV::List(*n),
            MdTag::Item => TagV::Item,
            MdTag::FootnoteDefinition(n) => TagV::FootnoteDefinition(n@),
            MdTag::DefinitionList => TagV::DefinitionList,
            MdTag::DefinitionListTitle => TagV::DefinitionListTitle,
            MdTag::DefinitionListDefinition => TagV::DefinitionListDefinition,
            MdTag::Table(a) => TagV::Table(a@),
            MdTag::TableHead => TagV::TableHead,
            MdTag::TableRow => TagV::TableRow,
            MdTag::TableCell => TagV::TableCell,
            MdTag::Emphasis => TagV::Emphasis,
            MdTag::Strong => TagV::Strong,
            MdTag::Strikethrough => TagV::Strikethrough,
            MdTag::Superscript => TagV::Superscript,
            MdTag::Subscript => TagV::Subscript,
            MdTag::Link(e, d, t) => TagV::Link(*e, d@, t@),
            MdTag::Image(d, t) => TagV::Image(d@, t@),
            MdTag::MetadataBlock(y) => TagV::MetadataBlock(*y),
        }
    }
}

impl View for MdEvent {
    type V = EventV;

    open spec fn view(&self) -> EventV {
        match self {
            MdEvent::Start(t) => EventV::Start(t@),
            MdEvent::End(t) => EventV::End(*t),
            MdEvent::Text(s) => EventV::Text(s@),
            MdEvent::Code(s) => EventV::Code(s@),
            MdEvent::InlineMath(s) => EventV::InlineMath(s@),
            MdEvent::DisplayMath(s) => EventV::DisplayMath(s@),
            MdEvent::Html(s) => EventV::Html(s@),
            MdEvent::InlineHtml(s) => EventV::InlineHtml(s@),
            MdEvent::FootnoteReference(s) => EventV::FootnoteReference(s@),
            MdEvent::SoftBreak => EventV::SoftBreak,
            MdEvent::HardBreak => EventV::HardBreak,
            MdEvent::Rule => EventV::Rule,
            MdEvent::TaskListMarker(b) => EventV::TaskListMarker(*b),
        }
    }
}

pub open spec fn events_view(v: Seq<MdEvent>) -> Seq<EventV> {
    v.map_values(|e: MdEvent| e@)
}

/// The extensions both renderers enable: tables, footnotes, strikethrough, task lists,
/// smart punctuation and math (as `pulldown_cmark::Options` bits).
pub const MARKDOWN_OPTIONS: u32 = 1086;

/// The events of parsing `input` as CommonMark with the extensions `options`.
pub uninterp spec fn parsed_markdown(input: Seq<char>, options: u32) -> Seq<EventV>;

} // verus!
