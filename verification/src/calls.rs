//! Trusted boundary: the calls this library makes into std functions that vstd does
//! not specify, and into outside crates. Each item states what the callee's source or
//! documentation shows of it; nothing here is proved.

use vstd::prelude::*;
use vstd::string::StringSliceAdditionalSpecFns;
use pulldown_cmark::{Alignment, CodeBlockKind as Kind, CowStr, Event as PdEvent, HeadingLevel, LinkType,
    MetadataBlockKind as Meta, Tag as PdTag, TagEnd as PdTagEnd};
use pulldown_cmark::Event::{Code, DisplayMath, End, FootnoteReference, HardBreak, Html, InlineHtml, InlineMath,
    Rule, SoftBreak, Start, TaskListMarker, Text};
use base64::Engine;
use syntect::easy::HighlightLines;
use syntect::highlighting::{Style as SyntectStyle, ThemeSet};
use syntect::parsing::SyntaxSet;
use unicode_segmentation::UnicodeSegmentation;
use crate::render::markdown::{events_view, parsed_markdown, ColumnAlign, EventV, HeadingRank, MdEvent, MdTag, MdTagEnd};
use crate::text::concat_all;
use crate::tunnel::{parts_view, UrlParts, UrlPartsV};

verus! {

/// The lower-case form of a text, as Unicode's `Lowercase` property maps it.
pub uninterp spec fn lowercased(s: Seq<char>) -> Seq<char>;

/// `str::to_lowercase`.
#[verifier::external_body]
pub(crate) fn to_lowercase(s: &str) -> (r: String)
    ensures
        r@ == lowercased(s@),
{
    s.to_lowercase()
}

/// A path with the extension of its file name replaced, as `Path::with_extension` makes it.
pub uninterp spec fn path_with_extension(path: Seq<char>, ext: Seq<char>) -> Seq<char>;

/// `std::path::Path::with_extension`, on a path and an extension given as text. Its
/// documentation has it panic on an extension that holds a path separator, which is left out.
#[verifier::external_body]
pub(crate) fn with_extension(path: &str, ext: &str) -> (r: String)
    requires
        !ext@.contains('/'),
        !ext@.contains('\\'),
    ensures
        r@ == path_with_extension(path@, ext@),
{
    std::path::Path::new(path).with_extension(ext).to_string_lossy().into_owned()
}

/// `String::push`: appends one character to the end of the string.
#[verifier::external_body]
pub(crate) fn push_char(s: &mut String, c: char)
    ensures
        final(s)@ == old(s)@.push(c),
{
    s.push(c);
}

} // verus!

verus! {

/// Bytes that `application/x-www-form-urlencoded` serialisation leaves as they are.
pub open spec fn form_unchanged(b: u8) -> bool {
    b == 0x2A || b == 0x2D || b == 0x2E || (0x30 <= b && b <= 0x39) || (0x41 <= b && b <= 0x5A)
        || b == 0x5F || (0x61 <= b && b <= 0x7A)
}

pub open spec fn hex_upper(d: int) -> char {
    if d < 10 {
        (d + 48) as char
    } else {
        (d + 55) as char
    }
}

/// The serialisation of one byte: itself, `+` for a space, or `%XX` in upper-case hex.
pub open spec fn form_byte(b: u8) -> Seq<char> {
    if form_unchanged(b) {
        seq![b as char]
    } else if b == 0x20 {
        seq!['+']
    } else {
        seq!['%', hex_upper(b as int / 16), hex_upper(b as int % 16)]
    }
}

pub open spec fn form_encoded(bytes: Seq<u8>) -> Seq<char>
    decreases bytes.len(),
{
    if bytes.len() == 0 {
        seq![]
    } else {
        form_encoded(bytes.drop_last()) + form_byte(bytes.last())
    }
}

/// `url::form_urlencoded::byte_serialize` over the UTF-8 bytes of `s`, collected into a
/// string: every byte is kept, turned into `+` (a space) or written as `%XX`, as
/// `form_byte` says.
#[verifier::external_body]
pub(crate) fn form_urlencode(s: &str) -> (r: String)
    ensures
        r@ == form_encoded(s.spec_bytes()),
{
    url::form_urlencoded::byte_serialize(s.as_bytes()).collect()
}

} // verus!

verus! {

// ---------------------------------------------------------------- pulldown-cmark

#[verifier::external_type_specification]
#[verifier::external_body]
pub struct ExPdEvent<'a>(pulldown_cmark::Event<'a>);

#[verifier::external_type_specification]
#[verifier::external_body]
pub struct ExPdTag<'a>(pulldown_cmark::Tag<'a>);

#[verifier::external_type_specification]
#[verifier::external_body]
pub struct ExPdTagEnd(pulldown_cmark::TagEnd);

/// `pulldown_cmark::Parser::new_ext` over `input` with the extension bits `options`
/// (`Options::from_bits_truncate`), its events collected in order, each converted variant
/// for variant into this crate's model by `md_event`.
#[verifier::external_body]
pub(crate) fn markdown_events(input: &str, options: u32) -> (r: Vec<MdEvent>)
    ensures
        events_view(r@) == parsed_markdown(input@, options),
{
    let options = pulldown_cmark::Options::from_bits_truncate(options);
    pulldown_cmark::Parser::new_ext(input, options).map(md_event).collect()
}

/// Converts a `pulldown_cmark::Event`, one arm per variant, moving the text out.
#[verifier::external_body]
fn md_event(e: PdEvent<'_>) -> MdEvent {
    match e {
        Start(t) => MdEvent::Start(md_tag(t)), End(t) => MdEvent::End(md_tag_end(t)),
        Text(s) => MdEvent::Text(s.into()), Code(s) => MdEvent::Code(s.into()),
        InlineMath(s) => MdEvent::InlineMath(s.into()), DisplayMath(s) => MdEvent::DisplayMath(s.into()),
        Html(s) => MdEvent::Html(s.into()), InlineHtml(s) => MdEvent::InlineHtml(s.into()),
        FootnoteReference(s) => MdEvent::FootnoteReference(s.into()),
        SoftBreak => MdEvent::SoftBreak, HardBreak => MdEvent::HardBreak,
        Rule => MdEvent::Rule, TaskListMarker(b) => MdEvent::TaskListMarker(b),
    }
}

/// Converts a block-level `pulldown_cmark::Tag`, one arm per variant; the others go to
/// `md_span_tag`.
#[verifier::external_body]
fn md_tag(t: PdTag<'_>) -> MdTag {
    match t {
        PdTag::Paragraph => MdTag::Paragraph, PdTag::Heading { level, .. } => MdTag::Heading(md_rank(level)),
        PdTag::BlockQuote(_) => MdTag::BlockQuote, PdTag::HtmlBlock => MdTag::HtmlBlock,
        PdTag::CodeBlock(Kind::Indented) => MdTag::CodeBlock(None),
        PdTag::CodeBlock(Kind::Fenced(s)) => MdTag::CodeBlock(Some(s.into())),
        PdTag::List(n) => MdTag::List(n), PdTag::Item => MdTag::Item,
        PdTag::FootnoteDefinition(s) => MdTag::FootnoteDefinition(s.into()),
        PdTag::Table(a) => MdTag::Table(a.into_iter().map(md_align).collect()),
        PdTag::TableHead => MdTag::TableHead, PdTag::TableRow => MdTag::TableRow,
        PdTag::TableCell => MdTag::TableCell, t => md_span_tag(t),
    }
}

/// Converts the span-level, definition-list and metadata `pulldown_cmark::Tag`s, one arm
/// per variant; the block-level ones go back to `md_tag`.
#[verifier::external_body]
fn md_span_tag(t: PdTag<'_>) -> MdTag {
    match t {
        PdTag::Emphasis => MdTag::Emphasis, PdTag::Strong => MdTag::Strong,
        PdTag::Strikethrough => MdTag::Strikethrough, PdTag::Superscript => MdTag::Superscript,
        PdTag::Subscript => MdTag::Subscript, PdTag::DefinitionList => MdTag::DefinitionList,
        PdTag::DefinitionListTitle => MdTag::DefinitionListTitle,
        PdTag::DefinitionListDefinition => MdTag::DefinitionListDefinition,
        PdTag::Link { link_type, dest_url, title, .. } => {
            MdTag::Link(link_type == LinkType::Email, dest_url.into(), title.into())
        },
        PdTag::Image { dest_url, title, .. } => MdTag::Image(dest_url.into(), title.into()),
        PdTag::MetadataBlock(k) => MdTag::MetadataBlock(k == Meta::YamlStyle), t => md_tag(t),
    }
}

/// Converts a block-level `pulldown_cmark::TagEnd`, one arm per variant; the others go to
/// `md_span_tag_end`.
#[verifier::external_body]
fn md_tag_end(t: PdTagEnd) -> MdTagEnd {
    match t {
        PdTagEnd::Paragraph => MdTagEnd::Paragraph, PdTagEnd::Heading(l) => MdTagEnd::Heading(md_rank(l)),
        PdTagEnd::BlockQuote(_) => MdTagEnd::BlockQuote, PdTagEnd::CodeBlock => MdTagEnd::CodeBlock,
        PdTagEnd::HtmlBlock => MdTagEnd::HtmlBlock, PdTagEnd::List(o) => MdTagEnd::List(o),
        PdTagEnd::Item => MdTagEnd::Item, PdTagEnd::FootnoteDefinition => MdTagEnd::FootnoteDefinition,
        PdTagEnd::Table => MdTagEnd::Table, PdTagEnd::TableHead => MdTagEnd::TableHead,
        PdTagEnd::TableRow => MdTagEnd::TableRow, PdTagEnd::TableCell => MdTagEnd::TableCell,
        t => md_span_tag_end(t),
    }
}

/// Converts the span-level, definition-list and metadata `pulldown_cmark::TagEnd`s, one
/// arm per variant; the block-level ones go back to `md_tag_end`.
#[verifier::external_body]
fn md_span_tag_end(t: PdTagEnd) -> MdTagEnd {
    match t {
        PdTagEnd::Emphasis => MdTagEnd::Emphasis, PdTagEnd::Strong => MdTagEnd::Strong,
        PdTagEnd::Strikethrough => MdTagEnd::Strikethrough, PdTagEnd::Superscript => MdTagEnd::Superscript,
        PdTagEnd::Subscript => MdTagEnd::Subscript, PdTagEnd::Link => MdTagEnd::Link,
        PdTagEnd::Image => MdTagEnd::Image, PdTagEnd::DefinitionList => MdTagEnd::DefinitionList,
        PdTagEnd::DefinitionListTitle => MdTagEnd::DefinitionListTitle,
        PdTagEnd::DefinitionListDefinition => MdTagEnd::DefinitionListDefinition,
        PdTagEnd::MetadataBlock(k) => MdTagEnd::MetadataBlock(k == Meta::YamlStyle), t => md_tag_end(t),
    }
}

#[verifier::external_type_specification]
#[verifier::external_body]
pub struct ExHeadingLevel(pulldown_cmark::HeadingLevel);

#[verifier::external_type_specification]
#[verifier::external_body]
pub struct ExAlignment(pulldown_cmark::Alignment);

#[verifier::external_type_specification]
#[verifier::external_body]
pub struct ExCowStr<'a>(pulldown_cmark::CowStr<'a>);

#[verifier::external_type_specification]
#[verifier::external_body]
pub struct ExMetadataBlockKind(pulldown_cmark::MetadataBlockKind);

/// Converts a `pulldown_cmark::HeadingLevel`, one arm per variant.
#[verifier::external_body]
fn md_rank(l: HeadingLevel) -> HeadingRank {
    match l {
        HeadingLevel::H1 => HeadingRank::H1, HeadingLevel::H2 => HeadingRank::H2,
        HeadingLevel::H3 => HeadingRank::H3, HeadingLevel::H4 => HeadingRank::H4,
        HeadingLevel::H5 => HeadingRank::H5, HeadingLevel::H6 => HeadingRank::H6,
    }
}

/// Converts a `pulldown_cmark::Alignment`, one arm per variant.
#[verifier::external_body]
fn md_align(a: Alignment) -> ColumnAlign {
    match a {
        Alignment::None => ColumnAlign::Unaligned, Alignment::Left => ColumnAlign::Left,
        Alignment::Center => ColumnAlign::Center, Alignment::Right => ColumnAlign::Right,
    }
}

/// What `pulldown_cmark::html::push_html` writes for a sequence of events.
pub uninterp spec fn html_of_events(events: Seq<EventV>) -> Seq<char>;

/// `pulldown_cmark::html::push_html` into an empty string, over `events` converted back
/// variant for variant by `pd_event`. The parts of a tag this crate's model does not keep
/// are written as the parser leaves them with the enabled extensions: no heading id,
/// classes or attributes, no block quote kind, an empty reference label, and the link type
/// `Inline` for every link but an e-mail autolink.
#[verifier::external_body]
pub(crate) fn events_html(events: &Vec<MdEvent>) -> (r: String)
    ensures
        r@ == html_of_events(events_view(events@)),
{
    let mut html = String::new();
    pulldown_cmark::html::push_html(&mut html, events.iter().map(pd_event));
    html
}

/// An owned copy of a text, as the parser's string type.
#[verifier::external_body]
fn cow(s: &String) -> CowStr<'static> {
    s.clone().into()
}

/// Converts one of this crate's events back into a `pulldown_cmark::Event`, one arm per
/// variant.
#[verifier::external_body]
fn pd_event(e: &MdEvent) -> PdEvent<'static> {
    match e {
        MdEvent::Start(t) => Start(pd_tag(t)), MdEvent::End(t) => End(pd_tag_end(*t)),
        MdEvent::Text(s) => Text(cow(s)), MdEvent::Code(s) => Code(cow(s)),
        MdEvent::InlineMath(s) => InlineMath(cow(s)), MdEvent::DisplayMath(s) => DisplayMath(cow(s)),
        MdEvent::Html(s) => Html(cow(s)), MdEvent::InlineHtml(s) => InlineHtml(cow(s)),
        MdEvent::FootnoteReference(s) => FootnoteReference(cow(s)),
        MdEvent::SoftBreak => SoftBreak, MdEvent::HardBreak => HardBreak,
        MdEvent::Rule => Rule, MdEvent::TaskListMarker(b) => TaskListMarker(*b),
    }
}

/// Converts a block-level tag back into a `pulldown_cmark::Tag`, one arm per variant; the
/// others go to `pd_span_tag`.
#[verifier::external_body]
fn pd_tag(t: &MdTag) -> PdTag<'static> {
    match t {
        MdTag::Paragraph => PdTag::Paragraph, MdTag::Heading(r) => pd_heading(*r),
        MdTag::BlockQuote => PdTag::BlockQuote(None), MdTag::HtmlBlock => PdTag::HtmlBlock,
        MdTag::CodeBlock(None) => PdTag::CodeBlock(Kind::Indented),
        MdTag::CodeBlock(Some(s)) => PdTag::CodeBlock(Kind::Fenced(cow(s))),
        MdTag::List(n) => PdTag::List(*n), MdTag::Item => PdTag::Item,
        MdTag::FootnoteDefinition(s) => PdTag::FootnoteDefinition(cow(s)),
        MdTag::Table(a) => PdTag::Table(a.iter().map(pd_align).collect()),
        MdTag::TableHead => PdTag::TableHead, MdTag::TableRow => PdTag::TableRow,
        MdTag::TableCell => PdTag::TableCell, t => pd_span_tag(t),
    }
}

/// Converts the span-level, definition-list and metadata tags back, one arm per variant;
/// the block-level ones go back to `pd_tag`.
#[verifier::external_body]
fn pd_span_tag(t: &MdTag) -> PdTag<'static> {
    match t {
        MdTag::Emphasis => PdTag::Emphasis, MdTag::Strong => PdTag::Strong,
        MdTag::Strikethrough => PdTag::Strikethrough, MdTag::Superscript => PdTag::Superscript,
        MdTag::Subscript => PdTag::Subscript, MdTag::DefinitionList => PdTag::DefinitionList,
        MdTag::DefinitionListTitle => PdTag::DefinitionListTitle,
        MdTag::DefinitionListDefinition => PdTag::DefinitionListDefinition,
        MdTag::Link(email, d, t) => pd_link(*email, d, t),
        MdTag::Image(d, t) => PdTag::Image { link_type: LinkType::Inline, dest_url: cow(d), title: cow(t), id: "".into() },
        MdTag::MetadataBlock(yaml) => PdTag::MetadataBlock(pd_meta(*yaml)), t => pd_tag(t),
    }
}

/// A heading tag of that level, with no id, classes or attributes.
#[verifier::external_body]
fn pd_heading(r: HeadingRank) -> PdTag<'static> {
    PdTag::Heading { level: pd_rank(r), id: None, classes: Vec::new(), attrs: Vec::new() }
}

/// A link tag: an e-mail autolink, or an inline link; no reference label.
#[verifier::external_body]
fn pd_link(email: bool, d: &String, t: &String) -> PdTag<'static> {
    let link_type = match email {
        true => LinkType::Email,
        false => LinkType::Inline,
    };
    PdTag::Link { link_type, dest_url: cow(d), title: cow(t), id: "".into() }
}

/// Converts a closing tag back into a `pulldown_cmark::TagEnd`, one arm per variant; the
/// span-level, definition-list and metadata ones go to `pd_span_tag_end`.
#[verifier::external_body]
fn pd_tag_end(t: MdTagEnd) -> PdTagEnd {
    match t {
        MdTagEnd::Paragraph => PdTagEnd::Paragraph, MdTagEnd::Heading(r) => PdTagEnd::Heading(pd_rank(r)),
        MdTagEnd::BlockQuote => PdTagEnd::BlockQuote(None), MdTagEnd::CodeBlock => PdTagEnd::CodeBlock,
        MdTagEnd::HtmlBlock => PdTagEnd::HtmlBlock, MdTagEnd::List(o) => PdTagEnd::List(o),
        MdTagEnd::Item => PdTagEnd::Item, MdTagEnd::FootnoteDefinition => PdTagEnd::FootnoteDefinition,
        MdTagEnd::Table => PdTagEnd::Table, MdTagEnd::TableHead => PdTagEnd::TableHead,
        MdTagEnd::TableRow => PdTagEnd::TableRow, MdTagEnd::TableCell => PdTagEnd::TableCell,
        t => pd_span_tag_end(t),
    }
}

/// Converts the other closing tags back, one arm per variant; the block-level ones go
/// back to `pd_tag_end`.
#[verifier::external_body]
fn pd_span_tag_end(t: MdTagEnd) -> PdTagEnd {
    match t {
        MdTagEnd::Emphasis => PdTagEnd::Emphasis, MdTagEnd::Strong => PdTagEnd::Strong,
        MdTagEnd::Strikethrough => PdTagEnd::Strikethrough, MdTagEnd::Superscript => PdTagEnd::Superscript,
        MdTagEnd::Subscript => PdTagEnd::Subscript, MdTagEnd::Link => PdTagEnd::Link,
        MdTagEnd::Image => PdTagEnd::Image, MdTagEnd::DefinitionList => PdTagEnd::DefinitionList,
        MdTagEnd::DefinitionListTitle => PdTagEnd::DefinitionListTitle,
        MdTagEnd::DefinitionListDefinition => PdTagEnd::DefinitionListDefinition,
        MdTagEnd::MetadataBlock(yaml) => PdTagEnd::MetadataBlock(pd_meta(yaml)), t => pd_tag_end(t),
    }
}

/// Converts a heading level back, one arm per variant.
#[verifier::external_body]
fn pd_rank(r: HeadingRank) -> HeadingLevel {
    match r {
        HeadingRank::H1 => HeadingLevel::H1, HeadingRank::H2 => HeadingLevel::H2,
        HeadingRank::H3 => HeadingLevel::H3, HeadingRank::H4 => HeadingLevel::H4,
        HeadingRank::H5 => HeadingLevel::H5, HeadingRank::H6 => HeadingLevel::H6,
    }
}

/// Converts a column alignment back, one arm per variant.
#[verifier::external_body]
fn pd_align(a: &ColumnAlign) -> Alignment {
    match a {
        ColumnAlign::Unaligned => Alignment::None, ColumnAlign::Left => Alignment::Left,
        ColumnAlign::Center => Alignment::Center, ColumnAlign::Right => Alignment::Right,
    }
}

/// The metadata block kind: YAML style for `true`, pluses style for `false`.
#[verifier::external_body]
fn pd_meta(yaml: bool) -> Meta {
    match yaml {
        true => Meta::YamlStyle,
        false => Meta::PlusesStyle,
    }
}

// ---------------------------------------------------------------- unicode

/// The display width of a text in terminal columns.
pub uninterp spec fn display_width(s: Seq<char>) -> usize;

/// `unicode_width::UnicodeWidthStr::width`.
#[verifier::external_body]
pub(crate) fn str_width(s: &str) -> (w: usize)
    ensures
        w == display_width(s@),
{
    unicode_width::UnicodeWidthStr::width(s)
}

/// The extended grapheme clusters of a text.
pub uninterp spec fn grapheme_clusters(s: Seq<char>) -> Seq<Seq<char>>;

/// `unicode_segmentation::UnicodeSegmentation::graphemes(s, true)`, each cluster owned.
/// The iterator hands out consecutive non-empty slices of `s` from its start to its end,
/// so the clusters read back as `s`.
#[verifier::external_body]
pub(crate) fn graphemes(s: &str) -> (g: Vec<String>)
    ensures
        g@.map_values(|x: String| x@) == grapheme_clusters(s@),
        concat_all(g@.map_values(|x: String| x@)) == s@,
        forall|i: int| 0 <= i < g@.len() ==> (#[trigger] g@[i])@.len() > 0,
{
    s.graphemes(true).map(String::from).collect()
}

// ---------------------------------------------------------------- syntect

/// A syntect highlight style: foreground and background RGB and the font style bits
/// (1 bold, 2 underline, 4 italic).
#[derive(Clone, Copy, Debug, PartialEq, Eq, Structural)]
pub struct SynStyle {
    pub fg: Rgb,
    pub bg: Rgb,
    pub font: u8,
}

/// Red, green and blue components.
#[derive(Clone, Copy, Debug, PartialEq, Eq, Structural)]
pub struct Rgb(pub u8, pub u8, pub u8);

pub open spec fn regions_view(r: Seq<(SynStyle, String)>) -> Seq<(SynStyle, Seq<char>)> {
    r.map_values(|p: (SynStyle, String)| (p.0, p.1@))
}

pub open spec fn highlight_view(
    r: Option<Vec<Option<Vec<(SynStyle, String)>>>>,
) -> Option<Seq<Option<Seq<(SynStyle, Seq<char>)>>>> {
    match r {
        Some(v) => Some(
            v@.map_values(
                |l: Option<Vec<(SynStyle, String)>>|
                    match l {
                        Some(rs) => Some(regions_view(rs@)),
                        None => None,
                    },
            ),
        ),
        None => None,
    }
}

/// The keys of the themes that `syntect::highlighting::ThemeSet::load_defaults` documents
/// as bundled.
pub open spec fn bundled_theme_names() -> Seq<Seq<char>> {
    seq![
        "base16-ocean.dark"@,
        "base16-eighties.dark"@,
        "base16-mocha.dark"@,
        "base16-ocean.light"@,
        "InspiredGitHub"@,
        "Solarized (dark)"@,
        "Solarized (light)"@,
    ]
}

/// Whether `find_syntax_by_token` finds a syntax for a token in the bundled newline syntaxes.
pub uninterp spec fn token_has_syntax(token: Seq<char>) -> bool;

/// `syntect::parsing::SyntaxSet::load_defaults_newlines().find_syntax_by_token(token)`:
/// whether it finds a syntax.
#[verifier::external_body]
pub(crate) fn syntax_for_token_exists(token: &str) -> (r: bool)
    ensures
        r == token_has_syntax(token@),
{
    SyntaxSet::load_defaults_newlines().find_syntax_by_token(token).is_some()
}

/// `syntect::highlighting::ThemeSet::load_defaults().themes.get(name)`: whether the theme
/// is bundled, which holds of exactly the keys its documentation lists.
#[verifier::external_body]
pub(crate) fn bundled_theme_exists(name: &str) -> (r: bool)
    ensures
        r == bundled_theme_names().contains(name@),
{
    ThemeSet::load_defaults().themes.get(name).is_some()
}

/// The regions syntect gives each line of a code block, highlighted in order with the
/// syntax found for `token` (the plain-text syntax for `None`) and the theme named `theme`
/// (the first bundled theme for `None`); `None` where a lookup finds nothing.
pub uninterp spec fn highlighted_lines(
    token: Option<Seq<char>>,
    theme: Option<Seq<char>>,
    lines: Seq<Seq<char>>,
) -> Option<Seq<Option<Seq<(SynStyle, Seq<char>)>>>>;

/// Whether the syntax and theme lookups of `highlight_lines` find something: a token needs
/// a syntax and a theme key must be bundled; no token and no theme always find one.
pub open spec fn lookups_found(token: Option<Seq<char>>, theme: Option<Seq<char>>) -> bool {
    (token matches Some(t) ==> token_has_syntax(t)) && (theme matches Some(n) ==> bundled_theme_names().contains(n))
}

/// Highlights `lines` in order with one `syntect::easy::HighlightLines` over the bundled
/// newline syntaxes and themes. The syntax is `find_syntax_by_token(token)`, or
/// `find_syntax_plain_text()` for no token; the theme is `themes.get(theme)`, or the first
/// of `themes.values()` for no theme. Where the lookup finds nothing the result is `None`:
/// it finds something for a token with a syntax, for a bundled theme's key, and for no
/// theme, since the bundled themes are not empty. Otherwise each entry holds the regions of
/// `highlight_line` for its line, or `None` where that returned an error.
#[verifier::external_body]
pub(crate) fn highlight_lines(token: &Option<String>, theme: &Option<String>, lines: &Vec<String>) -> (r: Option<
    Vec<Option<Vec<(SynStyle, String)>>>,
>)
    ensures
        highlight_view(r) == highlighted_lines(
            crate::config::opt_view(*token),
            crate::config::opt_view(*theme),
            lines@.map_values(|s: String| s@),
        ),
        r is Some == lookups_found(crate::config::opt_view(*token), crate::config::opt_view(*theme)),
        r matches Some(v) ==> v@.len() == lines@.len(),
{
    let ss = SyntaxSet::load_defaults_newlines();
    let ts = ThemeSet::load_defaults();
    let syntax = match token {
        Some(t) => ss.find_syntax_by_token(t)?,
        None => ss.find_syntax_plain_text(),
    };
    let theme = match theme {
        Some(n) => ts.themes.get(n)?,
        None => ts.themes.values().next()?,
    };
    let mut h = HighlightLines::new(syntax, theme);
    Some(lines.iter().map(|l| h.highlight_line(l, &ss).ok().map(syn_regions)).collect())
}

#[verifier::external_type_specification]
#[verifier::external_body]
pub struct ExSynStyle(SyntectStyle);

/// Converts the regions of one line, in order: colours and font style bits, and the text
/// owned.
#[verifier::external_body]
fn syn_regions(r: Vec<(SyntectStyle, &str)>) -> Vec<(SynStyle, String)> {
    r.into_iter().map(|(s, t)| {
        let (f, b) = (s.foreground, s.background);
        (SynStyle { fg: Rgb(f.r, f.g, f.b), bg: Rgb(b.r, b.g, b.b), font: s.font_style.bits() }, t.to_owned())
    }).collect()
}

} // verus!

verus! {

// ---------------------------------------------------------------- url

/// How `url::Url::parse` reads a text, where it succeeds.
pub uninterp spec fn parsed_url(input: Seq<char>) -> Option<UrlPartsV>;

/// `url::Url::parse(input)`: `None` where it fails; otherwise the URL's scheme, user name,
/// password, host text, explicit port, path, query and fragment, each as the accessor of
/// the same name returns it.
#[verifier::external_body]
pub(crate) fn parse_url(input: &str) -> (r: Option<UrlParts>)
    ensures
        parts_view(r) == parsed_url(input@),
{
    url::Url::parse(input).ok().map(|u| UrlParts {
        scheme: u.scheme().to_owned(),
        username: u.username().to_owned(),
        password: u.password().map(str::to_owned),
        host: u.host_str().map(str::to_owned),
        port: u.port(),
        path: u.path().to_owned(),
        query: u.query().map(str::to_owned),
        fragment: u.fragment().map(str::to_owned),
    })
}

} // verus!

verus! {

// ---------------------------------------------------------------- percent-encoding

/// The value of an ASCII hexadecimal digit (either case).
pub open spec fn hex_digit(b: u8) -> Option<u8> {
    if 0x30 <= b && b <= 0x39 {
        Some((b - 0x30) as u8)
    } else if 0x41 <= b && b <= 0x46 {
        Some((b - 0x41 + 10) as u8)
    } else if 0x61 <= b && b <= 0x66 {
        Some((b - 0x61 + 10) as u8)
    } else {
        None
    }
}

/// Percent-decoding of bytes: `%` and two hexadecimal digits stand for one byte; any other
/// byte, a `%` without two digits after it included, stands for itself.
pub open spec fn percent_decoded(b: Seq<u8>) -> Seq<u8>
    decreases b.len(),
{
    if b.len() == 0 {
        seq![]
    } else if b[0] == 0x25 && b.len() >= 3 && hex_digit(b[1]) is Some && hex_digit(b[2]) is Some {
        seq![(hex_digit(b[1])->0 * 16 + hex_digit(b[2])->0) as u8] + percent_decoded(b.skip(3))
    } else {
        seq![b[0]] + percent_decoded(b.skip(1))
    }
}

/// How `String::from_utf8_lossy` reads bytes: invalid sequences become U+FFFD.
pub uninterp spec fn utf8_lossy(bytes: Seq<u8>) -> Seq<char>;

/// Bytes read as UTF-8 with invalid sequences replaced: valid UTF-8 is its own text.
pub open spec fn lossy_decoded(bytes: Seq<u8>) -> Seq<char> {
    if vstd::utf8::valid_utf8(bytes) {
        vstd::utf8::decode_utf8(bytes)
    } else {
        utf8_lossy(bytes)
    }
}

/// `percent_encoding::percent_decode_str(s).decode_utf8_lossy()`: the bytes of `s`
/// percent-decoded (see `percent_decoded`), read as UTF-8 with invalid sequences replaced;
/// valid UTF-8 is read as it is.
#[verifier::external_body]
pub(crate) fn percent_decode_lossy(s: &str) -> (r: String)
    ensures
        r@ == utf8_lossy(percent_decoded(s.spec_bytes())),
        vstd::utf8::valid_utf8(percent_decoded(s.spec_bytes())) ==> r@ == vstd::utf8::decode_utf8(
            percent_decoded(s.spec_bytes()),
        ),
{
    percent_encoding::percent_decode_str(s).decode_utf8_lossy().into_owned()
}

/// `percent_encoding::percent_decode_str(s).decode_utf8()`: the bytes of `s`
/// percent-decoded (see `percent_decoded`) and read as UTF-8, or nothing where they are
/// not valid UTF-8.
#[verifier::external_body]
pub(crate) fn percent_decode_utf8(s: &str) -> (r: Option<String>)
    ensures
        r is Some <==> vstd::utf8::valid_utf8(percent_decoded(s.spec_bytes())),
        r matches Some(d) ==> d@ == vstd::utf8::decode_utf8(percent_decoded(s.spec_bytes())),
{
    match percent_encoding::percent_decode_str(s).decode_utf8() {
        Ok(d) => Some(d.into_owned()),
        Err(_) => None,
    }
}

} // verus!

verus! {

// ---------------------------------------------------------------- html-escape

/// One character as HTML text: `&`, `<` and `>` as entities.
pub open spec fn text_char(c: char) -> Seq<char> {
    if c == '&' {
        "&amp;"@
    } else if c == '<' {
        "&lt;"@
    } else if c == '>' {
        "&gt;"@
    } else {
        seq![c]
    }
}

/// One character in a double-quoted attribute: as HTML text, and `"` as `&quot;`.
pub open spec fn attr_char(c: char) -> Seq<char> {
    if c == '"' {
        "&quot;"@
    } else {
        text_char(c)
    }
}

pub open spec fn escaped_text(s: Seq<char>) -> Seq<char>
    decreases s.len(),
{
    if s.len() == 0 {
        seq![]
    } else {
        escaped_text(s.drop_last()) + text_char(s.last())
    }
}

pub open spec fn escaped_attr(s: Seq<char>) -> Seq<char>
    decreases s.len(),
{
    if s.len() == 0 {
        seq![]
    } else {
        escaped_attr(s.drop_last()) + attr_char(s.last())
    }
}

/// `html_escape::encode_text`: `&`, `<` and `>` escaped, every other character kept.
#[verifier::external_body]
pub(crate) fn encode_text(s: &str) -> (r: String)
    ensures
        r@ == escaped_text(s@),
{
    html_escape::encode_text(s).into_owned()
}

/// `html_escape::encode_double_quoted_attribute`: `&`, `<`, `>` and `"` escaped, every
/// other character kept.
#[verifier::external_body]
pub(crate) fn encode_attribute(s: &str) -> (r: String)
    ensures
        r@ == escaped_attr(s@),
{
    html_escape::encode_double_quoted_attribute(s).into_owned()
}

// ---------------------------------------------------------------- base64

/// A digit of the standard base64 alphabet: `A`–`Z`, `a`–`z`, `0`–`9`, `+`, `/`.
pub open spec fn base64_digit(v: int) -> char {
    if v < 26 {
        (65 + v) as char
    } else if v < 52 {
        (97 + v - 26) as char
    } else if v < 62 {
        (48 + v - 52) as char
    } else if v == 62 {
        '+'
    } else {
        '/'
    }
}

/// Standard base64 of bytes: each group of three bytes as four digits of six bits each,
/// a last group of one or two bytes padded with `=`.
pub open spec fn base64_of(b: Seq<u8>) -> Seq<char>
    decreases b.len(),
{
    if b.len() == 0 {
        seq![]
    } else if b.len() == 1 {
        seq![base64_digit((b[0] as int) / 4), base64_digit(((b[0] as int) % 4) * 16), '=', '=']
    } else if b.len() == 2 {
        seq![
            base64_digit((b[0] as int) / 4),
            base64_digit(((b[0] as int) % 4) * 16 + (b[1] as int) / 16),
            base64_digit(((b[1] as int) % 16) * 4),
            '=',
        ]
    } else {
        seq![
            base64_digit((b[0] as int) / 4),
            base64_digit(((b[0] as int) % 4) * 16 + (b[1] as int) / 16),
            base64_digit(((b[1] as int) % 16) * 4 + (b[2] as int) / 64),
            base64_digit((b[2] as int) % 64),
        ] + base64_of(b.skip(3))
    }
}

/// `base64::engine::general_purpose::STANDARD.encode` of the UTF-8 bytes of `s`.
#[verifier::external_body]
pub(crate) fn base64_encode(s: &str) -> (r: String)
    ensures
        r@ == base64_of(s.spec_bytes()),
{
    base64::engine::general_purpose::STANDARD.encode(s.as_bytes())
}

// ---------------------------------------------------------------- ammonia

/// The tags whose content `ammonia` drops whole by default (`clean_content_tags`):
/// `clean` panics when one of them is also an allowed tag or has allowed attributes.
pub open spec fn clean_content_tag(t: Seq<char>) -> bool {
    t == "script"@ || t == "style"@
}

/// Allowed tags that `clean` accepts beside its defaults: none whose content it drops.
pub open spec fn allowed_tags_accepted(tags: Seq<Seq<char>>) -> bool {
    forall|i: int| 0 <= i < tags.len() ==> !clean_content_tag(#[trigger] tags[i])
}

/// Allowed attributes that `clean` accepts while it sets `rel` on links itself: not `rel`.
pub open spec fn attributes_accepted(attributes: Seq<Seq<char>>) -> bool {
    forall|i: int| 0 <= i < attributes.len() ==> #[trigger] attributes[i] != "rel"@
}

/// Per-tag attributes that `clean` accepts: none on a tag whose content it drops, and no
/// `rel` on `a`.
pub open spec fn tag_attributes_accepted(tag_attributes: Seq<(Seq<char>, Seq<Seq<char>>)>) -> bool {
    forall|i: int|
        0 <= i < tag_attributes.len() ==> !clean_content_tag((#[trigger] tag_attributes[i]).0) && (
        tag_attributes[i].0 == "a"@ ==> attributes_accepted(tag_attributes[i].1))
}

/// What `ammonia::Builder::empty()` keeps of an HTML fragment when it allows exactly the
/// tags `tags` and, on every tag, the attributes `attributes`.
pub uninterp spec fn cleaned_strict(tags: Seq<Seq<char>>, attributes: Seq<Seq<char>>, html: Seq<char>) -> Seq<char>;

/// `ammonia::Builder::empty()` with `add_tags(tags)` and
/// `add_generic_attributes(attributes)`, then `clean(html)` written out.
#[verifier::external_body]
pub(crate) fn clean_strict(tags: &Vec<String>, attributes: &Vec<String>, html: &str) -> (r: String)
    requires
        allowed_tags_accepted(crate::text::string_views(tags@)),
        attributes_accepted(crate::text::string_views(attributes@)),
    ensures
        r@ == cleaned_strict(crate::text::string_views(tags@), crate::text::string_views(attributes@), html@),
{
    ammonia::Builder::empty().add_tags(tags.iter()).add_generic_attributes(attributes.iter()).clean(html).to_string()
}

/// What `ammonia::Builder::default()` keeps of an HTML fragment when it also allows the
/// tags `tags`, the attributes `attributes` on every tag, the attributes of
/// `tag_attributes` on their tags, and passes relative URLs through.
pub uninterp spec fn cleaned_document(
    tags: Seq<Seq<char>>,
    attributes: Seq<Seq<char>>,
    tag_attributes: Seq<(Seq<char>, Seq<Seq<char>>)>,
    html: Seq<char>,
) -> Seq<char>;

pub open spec fn tag_attribute_views(v: Seq<(String, Vec<String>)>) -> Seq<(Seq<char>, Seq<Seq<char>>)> {
    v.map_values(|p: (String, Vec<String>)| (p.0@, crate::text::string_views(p.1@)))
}

/// `ammonia::Builder::default()` with `add_tags(tags)`, `add_generic_attributes(attributes)`,
/// `add_tag_attributes` for each pair of `tag_attributes`, and
/// `url_relative(UrlRelative::PassThrough)`, then `clean(html)` written out.
#[verifier::external_body]
pub(crate) fn clean_document(
    tags: &Vec<String>,
    attributes: &Vec<String>,
    tag_attributes: &Vec<(String, Vec<String>)>,
    html: &str,
) -> (r: String)
    requires
        allowed_tags_accepted(crate::text::string_views(tags@)),
        attributes_accepted(crate::text::string_views(attributes@)),
        tag_attributes_accepted(tag_attribute_views(tag_attributes@)),
    ensures
        r@ == cleaned_document(
            crate::text::string_views(tags@),
            crate::text::string_views(attributes@),
            tag_attribute_views(tag_attributes@),
            html@,
        ),
{
    let mut b = ammonia::Builder::default();
    b.add_tags(tags.iter()).add_generic_attributes(attributes.iter());
    for (tag, names) in tag_attributes {
        b.add_tag_attributes(tag.as_str(), names.iter());
    }
    b.url_relative(ammonia::UrlRelative::PassThrough).clean(html).to_string()
}

// ---------------------------------------------------------------- shell-words

/// How `shell_words::split` splits a command line into words (quotes and backslashes
/// as a POSIX shell reads them), where it succeeds.
pub uninterp spec fn shell_words_of(s: Seq<char>) -> Option<Seq<Seq<char>>>;

/// `shell_words::split(s)`: the words of `s`, or the message of its only error (an
/// unclosed quote).
#[verifier::external_body]
pub(crate) fn split_words(s: &str) -> (r: Result<Vec<String>, String>)
    ensures
        r is Ok <==> shell_words_of(s@) is Some,
        r matches Ok(v) ==> shell_words_of(s@) == Some(crate::text::string_views(v@)),
        r matches Err(m) ==> m@ == "missing closing quote"@,
{
    match shell_words::split(s) {
        Ok(words) => Ok(words),
        Err(error) => Err(error.to_string()),
    }
}

} // verus!
