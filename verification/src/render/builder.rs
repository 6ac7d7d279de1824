//! The terminal renderer: turns Markdown events into styled lines, one event at a time.

use vstd::prelude::*;
use crate::calls::{markdown_events, push_char};
use crate::document::{strip_frontmatter, stripped_frontmatter};
use crate::render::cards::{code_card, math_card};
use crate::render::markdown::{events_view, parsed_markdown, EventV, HeadingRank, MdEvent, MdTag, MdTagEnd, TagV, MARKDOWN_OPTIONS};
use crate::render::style::{ansi_lines, ansi_text, lines_view, span, span_str, spans_view, Line, LineV, Palette, Span, SpanV, Style};
use crate::render::terminal::{
    clamp_width, current_style, drop_trailing_empty, heading_marker, heading_style, initial_state,
    is_web_link, render_palette, repeat_char, rule_line, run_events, s_blank, s_code_block, s_end,
    s_flush_line, s_flush_nonempty, s_item, s_pop_style, s_push_span, s_push_style, s_start, s_text,
    sat_inc, step, strip_tags, strip_tags_state, BuildState, TerminalRenderOptions,
};
use crate::render::wrap::{wrap_lines, wrapped};
use crate::render::Theme;
use crate::text::{chars_of, push_decimal, range_starts_with};

verus! {

pub open spec fn text_of(o: Option<String>) -> Option<Seq<char>> {
    match o {
        Some(s) => Some(s@),
        None => None,
    }
}

pub open spec fn code_of(c: Option<(String, String)>) -> Option<(Seq<char>, Seq<char>)> {
    match c {
        Some((l, b)) => Some((l@, b@)),
        None => None,
    }
}

/// The lines a renderer in state `st` hands back when the events run out: an open code
/// block is drawn, the last line is finished and trailing empty lines are dropped.
pub open spec fn finished_lines(o: TerminalRenderOptions, st: BuildState) -> Seq<LineV> {
    let s1 = match st.code {
        Some((l, b)) => s_code_block(o, BuildState { code: None, ..st }, l, b),
        None => st,
    };
    drop_trailing_empty(s_flush_nonempty(s1).lines)
}

/// The column limit lines are wrapped to: the configured width, at least 8.
pub open spec fn wrap_width(o: TerminalRenderOptions) -> nat {
    if o.width < 8 {
        8
    } else {
        o.width as nat
    }
}

/// The lines drawn for a sequence of Markdown events.
pub open spec fn rendered_events(o: TerminalRenderOptions, evs: Seq<EventV>) -> Seq<LineV> {
    wrapped(finished_lines(o, run_events(o, initial_state(), evs)), wrap_width(o))
}

/// The lines drawn for a Markdown document: its frontmatter is skipped and the rest is
/// parsed with the renderer's extensions.
pub open spec fn rendered_markdown(o: TerminalRenderOptions, input: Seq<char>) -> Seq<LineV> {
    rendered_events(o, parsed_markdown(stripped_frontmatter(input), MARKDOWN_OPTIONS))
}

/// The state with `more` added to the code block being captured.
pub open spec fn with_code_text(st: BuildState, more: Seq<char>) -> BuildState {
    match st.code {
        Some((l, b)) => BuildState { code: Some((l, b + more)), ..st },
        None => st,
    }
}

struct TerminalBuilder {
    options: TerminalRenderOptions,
    palette: Palette,
    lines: Vec<Line>,
    current: Vec<Span>,
    styles: Vec<Style>,
    lists: Vec<Option<u64>>,
    quote_depth: usize,
    code: Option<(String, String)>,
    link: Option<String>,
    in_table: bool,
    table_cell: usize,
}

fn bar_prefix(depth: usize) -> (r: String)
    ensures
        r@ == repeat_char('│', depth as nat).push(' '),
{
    let mut s = String::new();
    let mut i: usize = 0;
    while i < depth
        invariant
            i <= depth,
            s@ == repeat_char('│', i as nat),
        decreases depth - i,
    {
        push_char(&mut s, '│');
        assert(repeat_char('│', (i + 1) as nat) =~= repeat_char('│', i as nat).push('│'));
        i = i + 1;
    }
    push_char(&mut s, ' ');
    s
}

/// Two spaces per level of depth.
pub fn indent_of(depth: usize) -> (r: String)
    ensures
        r@ == repeat_char(' ', (2 * depth) as nat),
{
    indent(depth)
}

fn indent(depth: usize) -> (r: String)
    ensures
        r@ == repeat_char(' ', (2 * depth) as nat),
{
    let mut s = String::new();
    let mut i: usize = 0;
    while i < depth
        invariant
            i <= depth,
            s@ == repeat_char(' ', (2 * i) as nat),
        decreases depth - i,
    {
        push_char(&mut s, ' ');
        push_char(&mut s, ' ');
        assert(repeat_char(' ', (2 * (i + 1)) as nat) =~= repeat_char(' ', (2 * i) as nat).push(' ').push(' '));
        i = i + 1;
    }
    s
}

fn rule(o: &TerminalRenderOptions, pal: &Palette) -> (r: Line)
    ensures
        r@ == rule_line(*o, *pal),
{
    let n: usize = if o.width < 8 {
        8
    } else if o.width > 120 {
        120
    } else {
        o.width
    };
    let mut s = String::new();
    let mut i: usize = 0;
    while i < n
        invariant
            i <= n,
            s@ == repeat_char('─', i as nat),
        decreases n - i,
    {
        push_char(&mut s, '─');
        assert(repeat_char('─', (i + 1) as nat) =~= repeat_char('─', i as nat).push('─'));
        i = i + 1;
    }
    let mut spans: Vec<Span> = Vec::new();
    spans.push(span(s, pal.muted));
    let r = Line { spans };
    assert(r@ =~= rule_line(*o, *pal));
    r
}

/// The text of raw HTML without its tags (see `strip_tags`).
pub fn strip_html_hint(html: &str) -> (r: String)
    ensures
        r@ == strip_tags(html@),
{
    let c = chars_of(html);
    let mut out = String::new();
    let mut inside = false;
    let mut i: usize = 0;
    assert(c@.take(0) =~= Seq::<char>::empty());
    while i < c.len()
        invariant
            i <= c@.len(),
            (out@, inside) == strip_tags_state(c@.take(i as int)),
        decreases c@.len() - i,
    {
        let ch = c[i];
        assert(c@.take(i + 1).drop_last() =~= c@.take(i as int));
        assert(c@.take(i + 1).last() == ch);
        if ch == '<' {
            inside = true;
        } else if ch == '>' {
            inside = false;
        } else if !inside {
            push_char(&mut out, ch);
        }
        i = i + 1;
    }
    assert(c@.take(c@.len() as int) =~= c@);
    out
}

fn is_web_target(t: &str) -> (r: bool)
    ensures
        r == is_web_link(t@),
{
    let c = chars_of(t);
    let http = ['h', 't', 't', 'p', ':', '/', '/'];
    let https = ['h', 't', 't', 'p', 's', ':', '/', '/'];
    proof {
        reveal_strlit("http://");
        reveal_strlit("https://");
        assert(http@ =~= "http://"@);
        assert(https@ =~= "https://"@);
        assert(c@.subrange(0, c@.len() as int) =~= c@);
    }
    let a = range_starts_with(c.as_slice(), 0, c.len(), &http);
    let b = range_starts_with(c.as_slice(), 0, c.len(), &https);
    proof {
        if c@.len() >= 7 {
            assert(c@.take(7) =~= c@.subrange(0, 7));
        }
        if c@.len() >= 8 {
            assert(c@.take(8) =~= c@.subrange(0, 8));
        }
    }
    a || b
}

/// `left`, then `middle`, then `right`.
fn framed(left: &str, middle: &str, right: &str) -> (r: String)
    ensures
        r@ == left@ + middle@ + right@,
{
    let mut s = String::from_str(left);
    s.append(middle);
    s.append(right);
    s
}

impl TerminalBuilder {
    spec fn state(&self) -> BuildState {
        BuildState {
            lines: lines_view(self.lines@),
            current: spans_view(self.current@),
            styles: self.styles@,
            lists: self.lists@,
            quote_depth: self.quote_depth,
            code: code_of(self.code),
            link: text_of(self.link),
            in_table: self.in_table,
            table_cell: self.table_cell,
        }
    }

    spec fn wf(&self) -> bool {
        self.palette == render_palette(self.options)
    }

    /// Same settings as `other`.
    spec fn keeps(&self, other: &Self) -> bool {
        self.options == other.options && self.palette == other.palette
    }

    fn new(options: TerminalRenderOptions) -> (b: Self)
        ensures
            b.wf(),
            b.options == options,
            b.state() == initial_state(),
    {
        let none = String::new();
        let palette = Palette::new(options.theme.resolved(none.as_str()));
        let mut styles: Vec<Style> = Vec::new();
        styles.push(Style::plain());
        let b = TerminalBuilder {
            options,
            palette,
            lines: Vec::new(),
            current: Vec::new(),
            styles,
            lists: Vec::new(),
            quote_depth: 0,
            code: None,
            link: None,
            in_table: false,
            table_cell: 0,
        };
        assert(b.state().lines =~= Seq::<LineV>::empty());
        assert(b.state().current =~= Seq::<SpanV>::empty());
        assert(b.state().styles =~= seq![crate::render::style::plain_style()]);
        assert(b.state().lists =~= Seq::<Option<u64>>::empty());
        b
    }

    fn push_span(&mut self, text: String, style: Style)
        ensures
            final(self).keeps(old(self)),
            final(self).state() == s_push_span(old(self).state(), text@, style, old(self).palette),
    {
        let ghost st = self.state();
        let ghost tv = text@;
        if self.current.len() == 0 && self.quote_depth > 0 {
            let prefix = bar_prefix(self.quote_depth);
            self.current.push(span(prefix, self.palette.quote_bar));
        }
        self.current.push(span(text, style));
        proof {
            let bar = if st.current.len() == 0 && st.quote_depth > 0 {
                seq![(repeat_char('│', st.quote_depth as nat).push(' '), self.palette.quote_bar)]
            } else {
                seq![]
            };
            assert(spans_view(self.current@) =~= st.current + bar + seq![(tv, style)]);
            assert(self.state() =~~= s_push_span(st, tv, style, self.palette));
        }
    }

    fn current_style(&self) -> (s: Style)
        ensures
            s == current_style(self.state()),
    {
        let n = self.styles.len();
        if n > 0 {
            self.styles[n - 1]
        } else {
            Style::plain()
        }
    }

    fn text(&mut self, text: String)
        ensures
            final(self).keeps(old(self)),
            final(self).state() == s_text(old(self).state(), text@, old(self).palette),
    {
        let style = self.current_style();
        self.push_span(text, style);
    }

    fn flush_line(&mut self)
        ensures
            final(self).keeps(old(self)),
            final(self).state() == s_flush_line(old(self).state()),
    {
        let ghost st = self.state();
        let mut cur: Vec<Span> = Vec::new();
        std::mem::swap(&mut cur, &mut self.current);
        let ghost cv = spans_view(cur@);
        self.lines.push(Line { spans: cur });
        proof {
            assert(lines_view(self.lines@) =~= st.lines.push(st.current));
            assert(spans_view(self.current@) =~= Seq::<SpanV>::empty());
            assert(self.state() =~~= s_flush_line(st));
        }
    }

    fn flush_nonempty(&mut self)
        ensures
            final(self).keeps(old(self)),
            final(self).state() == s_flush_nonempty(old(self).state()),
    {
        if self.current.len() > 0 {
            self.flush_line();
        }
    }

    fn blank_line(&mut self)
        ensures
            final(self).keeps(old(self)),
            final(self).state() == s_blank(old(self).state()),
    {
        let ghost st = self.state();
        let n = self.lines.len();
        if n > 0 && self.lines[n - 1].spans.len() > 0 {
            let empty = Line { spans: Vec::new() };
            assert(empty@ =~= Seq::<SpanV>::empty());
            self.lines.push(empty);
            proof {
                assert(lines_view(self.lines@) =~= st.lines.push(seq![]));
                assert(self.state() =~~= s_blank(st));
            }
        }
    }

    fn pop_style(&mut self)
        ensures
            final(self).keeps(old(self)),
            final(self).state() == s_pop_style(old(self).state()),
    {
        let ghost st = self.state();
        if self.styles.len() > 1 {
            self.styles.pop();
            assert(self.state() =~~= s_pop_style(st));
        }
    }

    fn push_style(&mut self, s: Style)
        ensures
            final(self).keeps(old(self)),
            final(self).state() == s_push_style(old(self).state(), s),
    {
        let ghost st = self.state();
        self.styles.push(s);
        assert(self.state() =~~= s_push_style(st, s));
    }

    fn push_lines(&mut self, more: Vec<Line>)
        ensures
            final(self).keeps(old(self)),
            final(self).state() == (BuildState { lines: old(self).state().lines + lines_view(more@), ..old(self).state() }),
    {
        let ghost st = self.state();
        let mut more = more;
        let ghost mv = lines_view(more@);
        self.lines.append(&mut more);
        assert(lines_view(self.lines@) =~= st.lines + mv);
        assert(self.state() =~~= (BuildState { lines: st.lines + mv, ..st }));
    }

    fn item(&mut self)
        requires
            old(self).wf(),
        ensures
            final(self).keeps(old(self)),
            final(self).state() == s_item(old(self).state(), old(self).palette),
    {
        self.flush_nonempty();
        let n = self.lists.len();
        let depth = if n > 0 {
            n - 1
        } else {
            0
        };
        self.push_span(indent(depth), Style::plain());
        let ghost s2 = self.state();
        if n > 0 {
            match self.lists[n - 1] {
                Some(v) => {
                    let next = if v < u64::MAX {
                        v + 1
                    } else {
                        v
                    };
                    self.lists.set(n - 1, Some(next));
                    let ghost s3 = self.state();
                    assert(s3 =~~= BuildState { lists: s2.lists.update(s2.lists.len() - 1, Some(next)), ..s2 });
                    let mut label = String::new();
                    push_decimal(&mut label, v);
                    label.append(". ");
                    let bullet = self.palette.bullet;
                    self.push_span(label, bullet);
                },
                None => {
                    let bullet = self.palette.bullet;
                    self.push_span(String::from_str("• "), bullet);
                },
            }
        } else {
            let bullet = self.palette.bullet;
            self.push_span(String::from_str("• "), bullet);
        }
    }

    fn start(&mut self, tag: &MdTag)
        requires
            old(self).wf(),
        ensures
            final(self).keeps(old(self)),
            final(self).state() == s_start(old(self).options, old(self).state(), tag@),
    {
        let pal = self.palette;
        match tag {
            MdTag::Heading(rank) => {
                self.flush_nonempty();
                let (style, marker) = match rank {
                    HeadingRank::H1 => (pal.heading1, String::from_str("▌ ")),
                    HeadingRank::H2 => (pal.heading2, String::from_str("◆ ")),
                    _ => (pal.heading3, String::from_str("› ")),
                };
                assert(style == heading_style(*rank, pal));
                assert(marker@ == heading_marker(*rank));
                self.push_style(style);
                self.push_span(marker, style);
            },
            MdTag::BlockQuote => {
                self.flush_nonempty();
                let ghost s1 = self.state();
                if self.quote_depth < usize::MAX {
                    self.quote_depth = self.quote_depth + 1;
                }
                self.styles.push(pal.quote);
                assert(self.state() =~~= BuildState {
                    quote_depth: sat_inc(s1.quote_depth),
                    styles: s1.styles.push(pal.quote),
                    ..s1
                });
            },
            MdTag::CodeBlock(info) => {
                self.flush_nonempty();
                let language = match info {
                    Some(l) => l.clone(),
                    None => String::new(),
                };
                self.code = Some((language, String::new()));
            },
            MdTag::List(first) => {
                self.flush_nonempty();
                let ghost s1 = self.state();
                self.lists.push(*first);
                assert(self.state() =~~= BuildState { lists: s1.lists.push(*first), ..s1 });
            },
            MdTag::Item => self.item(),
            MdTag::Emphasis => {
                let s = self.current_style();
                self.push_style(Style { italic: true, ..s });
            },
            MdTag::Strong => {
                let s = self.current_style();
                self.push_style(Style { bold: true, ..s });
            },
            MdTag::Strikethrough => {
                let s = self.current_style();
                self.push_style(Style { crossed_out: true, ..s });
            },
            MdTag::Link(_, dest, _) => {
                self.link = Some(dest.clone());
                self.push_style(pal.link);
            },
            MdTag::Image(dest, _) => {
                self.link = Some(dest.clone());
                self.push_style(pal.image);
                self.push_span(String::from_str("🖼 "), pal.image);
            },
            MdTag::Table(_) => {
                self.flush_nonempty();
                self.in_table = true;
            },
            MdTag::TableRow => {
                self.table_cell = 0;
            },
            MdTag::TableCell => {
                if self.table_cell > 0 {
                    self.push_span(String::from_str(" │ "), pal.muted);
                }
                if self.table_cell < usize::MAX {
                    self.table_cell = self.table_cell + 1;
                }
            },
            MdTag::FootnoteDefinition(name) => {
                self.flush_nonempty();
                self.push_span(framed("[^", name.as_str(), "] "), pal.link);
            },
            _ => {},
        }
    }

    fn end(&mut self, tag: MdTagEnd)
        requires
            old(self).wf(),
        ensures
            final(self).keeps(old(self)),
            final(self).state() == s_end(old(self).options, old(self).state(), tag),
    {
        let pal = self.palette;
        match tag {
            MdTagEnd::Paragraph => {
                self.flush_nonempty();
                if self.lists.len() == 0 && !self.in_table {
                    self.blank_line();
                }
            },
            MdTagEnd::Heading(_) => {
                self.flush_nonempty();
                self.blank_line();
                self.pop_style();
            },
            MdTagEnd::BlockQuote => {
                self.flush_nonempty();
                self.blank_line();
                if self.quote_depth > 0 {
                    self.quote_depth = self.quote_depth - 1;
                }
                self.pop_style();
            },
            MdTagEnd::List(_) => {
                self.flush_nonempty();
                let ghost s1 = self.state();
                if self.lists.len() > 0 {
                    self.lists.pop();
                }
                assert(self.lists@ =~= (if s1.lists.len() > 0 {
                    s1.lists.drop_last()
                } else {
                    s1.lists
                }));
                if self.lists.len() == 0 {
                    self.blank_line();
                }
            },
            MdTagEnd::Item => self.flush_nonempty(),
            MdTagEnd::Emphasis => self.pop_style(),
            MdTagEnd::Strong => self.pop_style(),
            MdTagEnd::Strikethrough => self.pop_style(),
            MdTagEnd::Link => {
                self.pop_style();
                let target = self.link.take();
                match target {
                    Some(t) => {
                        if is_web_target(t.as_str()) {
                            self.push_span(String::from_str(" ↗"), pal.muted);
                        }
                    },
                    None => {},
                }
            },
            MdTagEnd::Image => {
                self.pop_style();
                let target = self.link.take();
                match target {
                    Some(t) => {
                        self.push_span(framed(" (", t.as_str(), ")"), pal.muted);
                    },
                    None => {},
                }
            },
            MdTagEnd::Table => {
                self.flush_nonempty();
                self.in_table = false;
                self.blank_line();
            },
            MdTagEnd::TableHead => {
                self.flush_nonempty();
                let ghost s1 = self.state();
                let line = rule(&self.options, &pal);
                let ghost lv = line@;
                self.lines.push(line);
                assert(self.state() =~~= BuildState { lines: s1.lines.push(lv), ..s1 });
            },
            MdTagEnd::TableRow => self.flush_nonempty(),
            MdTagEnd::FootnoteDefinition => {
                self.flush_nonempty();
                self.blank_line();
            },
            _ => {},
        }
    }

    fn code_block(&mut self, language: &String, body: &String)
        requires
            old(self).wf(),
        ensures
            final(self).keeps(old(self)),
            final(self).state() == s_code_block(old(self).options, old(self).state(), language@, body@),
    {
        let card = code_card(&self.options, &self.palette, language.as_str(), body.as_str());
        self.push_lines(card);
        self.blank_line();
    }

    fn display_math(&mut self, math: &String)
        requires
            old(self).wf(),
        ensures
            final(self).keeps(old(self)),
            final(self).state() == crate::render::terminal::s_display_math(
                old(self).options,
                old(self).state(),
                math@,
            ),
    {
        self.flush_nonempty();
        let card = math_card(&self.palette, math.as_str());
        self.push_lines(card);
        self.blank_line();
    }

    /// Adds text to the code block being captured.
    fn capture(&mut self, more: &str)
        requires
            old(self).code is Some,
        ensures
            final(self).keeps(old(self)),
            final(self).state() == with_code_text(old(self).state(), more@),
    {
        let c = self.code.take();
        match c {
            Some((l, b)) => {
                let mut b = b;
                b.append(more);
                self.code = Some((l, b));
            },
            None => {},
        }
    }

    fn event(&mut self, e: &MdEvent)
        requires
            old(self).wf(),
        ensures
            final(self).keeps(old(self)),
            final(self).state() == step(old(self).options, old(self).state(), e@),
    {
        if self.code.is_some() {
            self.captured_event(e);
        } else {
            match e {
                MdEvent::Start(t) => self.start_event(t, e),
                _ => self.plain_event(e),
            }
        }
    }

    /// An event while a code block is captured: its text is gathered until it ends.
    fn captured_event(&mut self, e: &MdEvent)
        requires
            old(self).wf(),
            old(self).code is Some,
        ensures
            final(self).keeps(old(self)),
            final(self).state() == step(old(self).options, old(self).state(), e@),
    {
        match e {
                MdEvent::End(MdTagEnd::CodeBlock) => {
                    let c = self.code.take();
                    match c {
                        Some((l, b)) => self.code_block(&l, &b),
                        None => {},
                    }
                },
                MdEvent::Text(t) => self.capture(t.as_str()),
                MdEvent::Code(t) => self.capture(t.as_str()),
                MdEvent::SoftBreak => {
                    proof {
                        reveal_strlit("\n");
                    }
                    self.capture("\n");
                },
                MdEvent::HardBreak => {
                    proof {
                        reveal_strlit("\n");
                    }
                    self.capture("\n");
                },
                _ => {},
            }
    }

    fn start_event(&mut self, t: &MdTag, e: &MdEvent)
        requires
            old(self).wf(),
            old(self).code is None,
            e@ == EventV::Start(t@),
        ensures
            final(self).keeps(old(self)),
            final(self).state() == step(old(self).options, old(self).state(), e@),
    {
        self.start(t);
    }

    fn plain_event(&mut self, e: &MdEvent)
        requires
            old(self).wf(),
            old(self).code is None,
            !(e is Start),
        ensures
            final(self).keeps(old(self)),
            final(self).state() == step(old(self).options, old(self).state(), e@),
    {
        let pal = self.palette;
        proof {
            reveal_strlit(" ");
            reveal_strlit("$");
        }
        match e {
            MdEvent::Start(_) => {},
            MdEvent::End(t) => { self.end(*t); assert(self.state() =~~= step(old(self).options, old(self).state(), e@)); },
            MdEvent::Text(t) => { self.text(t.clone()); assert(self.state() =~~= step(old(self).options, old(self).state(), e@)); },
            MdEvent::Code(c) => { self.push_span(framed(" ", c.as_str(), " "), pal.inline_code); assert(self.state() =~~= step(old(self).options, old(self).state(), e@)); },
            MdEvent::SoftBreak => {
                if self.options.preserve_newlines {
                    self.flush_line();
                } else {
                    self.text(String::from_str(" "));
                }
                assert(self.state() =~~= step(old(self).options, old(self).state(), e@));
            },
            MdEvent::HardBreak => { self.flush_line(); assert(self.state() =~~= step(old(self).options, old(self).state(), e@)); },
            MdEvent::Rule => {
                self.flush_nonempty();
                let ghost s1 = self.state();
                let line = rule(&self.options, &pal);
                let ghost lv = line@;
                self.lines.push(line);
                assert(self.state() =~~= BuildState { lines: s1.lines.push(lv), ..s1 });
                self.blank_line();
                assert(self.state() =~~= step(old(self).options, old(self).state(), e@));
            },
            MdEvent::TaskListMarker(checked) => {
                let marker = if *checked {
                    String::from_str("☑ ")
                } else {
                    String::from_str("☐ ")
                };
                self.push_span(marker, pal.accent);
                assert(self.state() =~~= step(old(self).options, old(self).state(), e@));
            },
            MdEvent::FootnoteReference(name) => { self.push_span(framed("[^", name.as_str(), "]"), pal.link); assert(self.state() =~~= step(old(self).options, old(self).state(), e@)); },
            MdEvent::Html(h) => { self.text(strip_html_hint(h.as_str())); assert(self.state() =~~= step(old(self).options, old(self).state(), e@)); },
            MdEvent::InlineHtml(h) => { self.text(strip_html_hint(h.as_str())); assert(self.state() =~~= step(old(self).options, old(self).state(), e@)); },
            MdEvent::InlineMath(m) => { self.push_span(framed("$", m.as_str(), "$"), pal.math_inline); assert(self.state() =~~= step(old(self).options, old(self).state(), e@)); },
            MdEvent::DisplayMath(m) => { self.display_math(m); assert(self.state() =~~= step(old(self).options, old(self).state(), e@)); },
        }
    }

    fn finish(self) -> (r: Vec<Line>)
        requires
            self.wf(),
        ensures
            lines_view(r@) == wrapped(finished_lines(self.options, self.state()), wrap_width(self.options)),
    {
        let ghost o = self.options;
        let ghost st = self.state();
        let mut b = self;
        let c = b.code.take();
        assert(b.state() =~~= BuildState { code: None, ..st });
        match c {
            Some((l, body)) => b.code_block(&l, &body),
            None => {},
        }
        let ghost s1 = b.state();
        assert(s1 == match st.code {
            Some((l, body)) => s_code_block(o, BuildState { code: None, ..st }, l, body),
            None => st,
        });
        b.flush_nonempty();
        assert(lines_view(b.lines@) == s_flush_nonempty(s1).lines);
        let ghost full = lines_view(b.lines@);
        while b.lines.len() > 0 && b.lines[b.lines.len() - 1].spans.len() == 0
            invariant
                drop_trailing_empty(lines_view(b.lines@)) == drop_trailing_empty(full),
                b.options == o,
            decreases b.lines@.len(),
        {
            let ghost before = lines_view(b.lines@);
            b.lines.pop();
            assert(lines_view(b.lines@) =~= before.drop_last());
        }
        proof {
            let lv = lines_view(b.lines@);
            if lv.len() > 0 {
                assert(lv.last() == b.lines@[b.lines@.len() - 1]@);
            }
            assert(drop_trailing_empty(lv) == lv);
        }
        let width: usize = if b.options.width < 8 {
            8
        } else {
            b.options.width
        };
        wrap_lines(&b.lines, width)
    }
}

/// Draws Markdown events as styled terminal lines: the events in order, then the
/// unfinished line, without trailing empty lines, wrapped to the width (at least 8).
pub fn render_events(events: &Vec<MdEvent>, options: TerminalRenderOptions) -> (r: Vec<Line>)
    ensures
        lines_view(r@) == rendered_events(options, events_view(events@)),
{
    let mut b = TerminalBuilder::new(options);
    let ghost evs = events_view(events@);
    let mut k: usize = 0;
    assert(evs.take(0) =~= Seq::<EventV>::empty());
    while k < events.len()
        invariant
            evs == events_view(events@),
            k <= events@.len(),
            b.wf(),
            b.options == options,
            b.state() == run_events(options, initial_state(), evs.take(k as int)),
        decreases events@.len() - k,
    {
        assert(evs.take(k + 1).drop_last() =~= evs.take(k as int));
        assert(evs.take(k + 1).last() == events@[k as int]@);
        b.event(&events[k]);
        k = k + 1;
    }
    assert(evs.take(events@.len() as int) =~= evs);
    b.finish()
}

/// Renders Markdown as styled terminal lines with the given settings.
pub fn render_lines_with_options(input: &str, options: TerminalRenderOptions) -> (r: Vec<Line>)
    ensures
        lines_view(r@) == rendered_markdown(options, input@),
{
    let body = strip_frontmatter(input);
    let events = markdown_events(body.as_str(), MARKDOWN_OPTIONS);
    render_events(&events, options)
}

/// Renders Markdown at `width` columns in `theme`, without line numbers and joining soft
/// line breaks.
pub fn render_lines(input: &str, width: usize, theme: Theme) -> (r: Vec<Line>)
    ensures
        lines_view(r@) == rendered_markdown(
            TerminalRenderOptions { width, theme, line_numbers: false, preserve_newlines: false },
            input@,
        ),
{
    render_lines_with_options(
        input,
        TerminalRenderOptions { width, theme, line_numbers: false, preserve_newlines: false },
    )
}

/// Renders Markdown as text, one line per row ending in `\n`; with `color`, each span is
/// wrapped in its ANSI escape codes.
pub fn render_ansi(input: &str, options: TerminalRenderOptions, color: bool) -> (r: String)
    ensures
        r@ == ansi_text(rendered_markdown(options, input@), color),
{
    let lines = render_lines_with_options(input, options);
    ansi_lines(&lines, color)
}

/// For `render_ansi`: the coloured rendering of a document, its SGR sequences taken out,
/// is the plain rendering, provided no text it draws holds an escape character.
pub proof fn lemma_rendered_colour_is_only_escapes(options: TerminalRenderOptions, input: Seq<char>)
    requires
        forall|i: int, j: int|
            0 <= i < rendered_markdown(options, input).len() && 0 <= j < rendered_markdown(options, input)[i].len()
                ==> crate::render::style::escape_free(#[trigger] rendered_markdown(options, input)[i][j].0),
    ensures
        crate::render::style::without_sgr(ansi_text(rendered_markdown(options, input), true)) == ansi_text(
            rendered_markdown(options, input),
            false,
        ),
{
    crate::render::style::lemma_colour_is_only_escapes(rendered_markdown(options, input));
}

/// A task-list marker draws a ticked box `☑` when checked and an empty box `☐` when not,
/// in the accent colour: whatever came before (outside a code block), the drawn lines end
/// with that box, and so do the wrapped lines when the last line fits the width.
pub proof fn lemma_task_marker_drawn(o: TerminalRenderOptions, evs: Seq<EventV>, checked: bool)
    requires
        run_events(o, crate::render::terminal::initial_state(), evs).code is None,
    ensures
        ({
            let lines = finished_lines(o, run_events(o, crate::render::terminal::initial_state(), evs.push(EventV::TaskListMarker(checked))));
            let mark = if checked { seq!['☑', ' '] } else { seq!['☐', ' '] };
            &&& lines.len() > 0
            &&& lines.last().len() > 0
            &&& lines.last().last() == (mark, crate::render::terminal::render_palette(o).accent)
            &&& crate::render::wrap::total_width(lines.last()) <= wrap_width(o) ==> rendered_events(
                o,
                evs.push(EventV::TaskListMarker(checked)),
            ).last() == lines.last()
        }),
{
    let init = crate::render::terminal::initial_state();
    let all = evs.push(EventV::TaskListMarker(checked));
    assert(all.drop_last() =~= evs);
    let st = run_events(o, init, evs);
    let s2 = run_events(o, init, all);
    assert(s2 == crate::render::terminal::step(o, st, EventV::TaskListMarker(checked)));
    reveal_strlit("☑ ");
    reveal_strlit("☐ ");
    assert(s2.code is None);
    assert(s2.current.len() > 0);
    let flushed = crate::render::terminal::s_flush_nonempty(s2).lines;
    assert(flushed.last() == s2.current);
    assert(crate::render::terminal::drop_trailing_empty(flushed) == flushed);
    let lines = finished_lines(o, s2);
    assert(lines == flushed);
    let w = wrap_width(o);
    assert(crate::render::wrap::wrapped(lines, w) == crate::render::wrap::wrapped(lines.drop_last(), w)
        + crate::render::wrap::wrapped_line(lines.last(), w));
}

/// Inline code is drawn padded with a space on each side in the inline-code colour, a
/// footnote reference as `[^name]` in the link colour, and inline math between `$` signs in
/// the math colour: whatever came before (outside a code block), the drawn lines end with
/// that span.
pub proof fn lemma_inline_spans_drawn(o: TerminalRenderOptions, evs: Seq<EventV>, e: EventV)
    requires
        run_events(o, crate::render::terminal::initial_state(), evs).code is None,
        e is Code || e is FootnoteReference || e is InlineMath,
    ensures
        ({
            let lines = finished_lines(o, run_events(o, crate::render::terminal::initial_state(), evs.push(e)));
            let pal = crate::render::terminal::render_palette(o);
            &&& lines.len() > 0
            &&& lines.last().len() > 0
            &&& lines.last().last() == match e {
                EventV::Code(c) => (seq![' '] + c + seq![' '], pal.inline_code),
                EventV::FootnoteReference(n) => (seq!['[', '^'] + n + seq![']'], pal.link),
                EventV::InlineMath(m) => (seq!['$'] + m + seq!['$'], pal.math_inline),
                _ => (seq![], pal.accent),
            }
        }),
{
    let init = crate::render::terminal::initial_state();
    let all = evs.push(e);
    assert(all.drop_last() =~= evs);
    let st = run_events(o, init, evs);
    let s2 = run_events(o, init, all);
    assert(s2 == crate::render::terminal::step(o, st, e));
    reveal_strlit("[^");
    reveal_strlit("]");
    match e {
        EventV::FootnoteReference(n) => {
            assert("[^"@ + n + "]"@ =~= seq!['[', '^'] + n + seq![']']);
        },
        _ => {},
    }
    assert(s2.current.len() > 0);
    let flushed = crate::render::terminal::s_flush_nonempty(s2).lines;
    assert(flushed.last() == s2.current);
    assert(crate::render::terminal::drop_trailing_empty(flushed) == flushed);
}

} // verus!
