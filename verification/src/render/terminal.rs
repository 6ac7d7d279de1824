//! Terminal rendering of Markdown into styled lines.

use vstd::prelude::*;
pub use crate::render::builder::{render_ansi, render_events, render_lines, render_lines_with_options};
use crate::calls::{bundled_theme_names, highlighted_lines, token_has_syntax, SynStyle};
use crate::document::line_end;
use crate::render::markdown::{EventV, HeadingRank, MdTagEnd, TagV};
use crate::render::style::{line_text, palette_of, plain_style, span, spans_view, Color, LineV, Palette, Span, SpanV, Style};
use crate::render::{mermaid_info, resolve_theme, Theme};
use crate::text::{chars_of, concat_all, dec, find_from, lemma_concat_append, lemma_concat_step,
    lemma_find_from_bounds, padded_dec, same_chars, range_is, skip_set, string_of, trim,
    trim_end_by, trim_start_by, lead, CharSet};

verus! {

// ---------------------------------------------------------------- Mermaid source

/// Words that open a Mermaid diagram or statement.
pub open spec fn mermaid_keywords() -> Seq<Seq<char>> {
    seq![
        "flowchart"@, "graph"@, "sequenceDiagram"@, "classDiagram"@, "stateDiagram"@,
        "stateDiagram-v2"@, "erDiagram"@, "journey"@, "gantt"@, "pie"@, "mindmap"@,
        "timeline"@, "gitGraph"@, "quadrantChart"@, "xychart-beta"@, "xychart"@,
        "sankey-beta"@, "sankey"@, "block-beta"@, "block"@, "packet-beta"@, "packet"@,
        "architecture-beta"@, "architecture"@, "radar-beta"@, "radar"@, "kanban"@,
        "treemap-beta"@, "treemap"@, "requirementDiagram"@, "C4Context"@, "C4Container"@,
        "C4Component"@, "C4Dynamic"@, "C4Deployment"@, "zenuml"@, "subgraph"@, "end"@,
        "participant"@, "actor"@, "note"@, "loop"@, "alt"@, "else"@, "opt"@, "par"@,
        "and"@, "rect"@, "critical"@, "break"@, "activate"@, "deactivate"@, "title"@,
        "section"@, "classDef"@, "style"@, "linkStyle"@, "click"@,
    ]
}

pub fn is_mermaid_keyword(token: &[char]) -> (r: bool)
    ensures
        r == mermaid_keywords().contains(token@),
{
    let words: [&str; 58] = [
        "flowchart", "graph", "sequenceDiagram", "classDiagram", "stateDiagram",
        "stateDiagram-v2", "erDiagram", "journey", "gantt", "pie", "mindmap",
        "timeline", "gitGraph", "quadrantChart", "xychart-beta", "xychart",
        "sankey-beta", "sankey", "block-beta", "block", "packet-beta", "packet",
        "architecture-beta", "architecture", "radar-beta", "radar", "kanban",
        "treemap-beta", "treemap", "requirementDiagram", "C4Context", "C4Container",
        "C4Component", "C4Dynamic", "C4Deployment", "zenuml", "subgraph", "end",
        "participant", "actor", "note", "loop", "alt", "else", "opt", "par",
        "and", "rect", "critical", "break", "activate", "deactivate", "title",
        "section", "classDef", "style", "linkStyle", "click",
    ];
    let ghost kw = mermaid_keywords();
    assert(words@.map_values(|w: &str| w@) =~= kw);
    let mut i: usize = 0;
    while i < 58
        invariant
            0 <= i <= 58,
            words@.map_values(|w: &str| w@) == kw,
            kw.len() == 58,
            kw == mermaid_keywords(),
            forall|j: int| 0 <= j < i ==> kw[j] != token@,
        decreases 58 - i,
    {
        let w = chars_of(words[i]);
        assert(kw[i as int] == words@[i as int]@);
        if same_chars(w.as_slice(), token) {
            assert(kw[i as int] == token@);
            assert(kw.contains(token@));
            return true;
        }
        i = i + 1;
    }
    false
}

} // verus!

verus! {

/// Mermaid edge operators, in the order in which they are tried.
pub open spec fn edge_operators() -> Seq<Seq<char>> {
    seq![
        seq!['<', '-', '-', '>'],
        seq!['-', '.', '-', '>'],
        seq!['-', '-', '>', '>'],
        seq!['<', '<', '-', '-'],
        seq!['=', '=', '>'],
        seq!['-', '-', '>'],
        seq!['-', '-', '-'],
        seq!['-', '>', '>'],
        seq!['-', '-'],
        seq!['-', '>'],
    ]
}

pub open spec fn occurs_at(s: Seq<char>, i: int, op: Seq<char>) -> bool {
    0 <= i && i + op.len() <= s.len() && s.subrange(i, i + op.len()) == op
}

/// The first position at or after `i` where `op` occurs in `s`, or -1.
pub open spec fn first_occ(s: Seq<char>, op: Seq<char>, i: int) -> int
    decreases s.len() - i,
{
    if i < 0 || i >= s.len() || i + op.len() > s.len() {
        -1
    } else if occurs_at(s, i, op) {
        i
    } else {
        first_occ(s, op, i + 1)
    }
}

pub proof fn lemma_first_occ(s: Seq<char>, op: Seq<char>, i: int)
    requires
        0 <= i,
    ensures
        first_occ(s, op, i) == -1 || (i <= first_occ(s, op, i) && occurs_at(
            s,
            first_occ(s, op, i),
            op,
        )),
    decreases s.len() - i,
{
    if !(i < 0 || i >= s.len() || i + op.len() > s.len()) && !occurs_at(s, i, op) {
        lemma_first_occ(s, op, i + 1);
    }
}

pub open spec fn beats(prev: Option<(int, Seq<char>)>, i: int, op: Seq<char>) -> bool {
    match prev {
        None => true,
        Some((j, p)) => i < j || (i == j && op.len() > p.len()),
    }
}

/// The earliest operator occurrence among the first `k` operators; at the same position
/// the longer operator wins, and an earlier operator wins over an equal one.
pub open spec fn best_op(s: Seq<char>, k: int) -> Option<(int, Seq<char>)>
    decreases k,
{
    if k <= 0 {
        None
    } else {
        let prev = best_op(s, k - 1);
        let op = edge_operators()[k - 1];
        let i = first_occ(s, op, 0);
        if i >= 0 && beats(prev, i, op) {
            Some((i, op))
        } else {
            prev
        }
    }
}

pub proof fn lemma_best_op(s: Seq<char>, k: int)
    requires
        0 <= k <= 10,
    ensures
        match best_op(s, k) {
            Some((i, op)) => occurs_at(s, i, op) && op.len() >= 2,
            None => true,
        },
    decreases k,
{
    if k > 0 {
        lemma_best_op(s, k - 1);
        lemma_first_occ(s, edge_operators()[k - 1], 0);
    }
}

/// Mermaid source text split into plain text and edge operators.
pub open spec fn edges(s: Seq<char>, pal: Palette) -> Seq<SpanV>
    decreases s.len(),
{
    if s.len() == 0 {
        seq![]
    } else {
        proof {
            lemma_best_op(s, 10);
        }
        match best_op(s, 10) {
            None => seq![(s, pal.diagram_source)],
            Some((i, op)) => (if i > 0 {
                seq![(s.take(i), pal.diagram_source)]
            } else {
                seq![]
            }) + seq![(op, pal.diagram_edge)] + edges(s.skip(i + op.len()), pal),
        }
    }
}

/// `edges`, or one empty plain span when there are none.
pub open spec fn highlighted_edges(s: Seq<char>, pal: Palette) -> Seq<SpanV> {
    let e = edges(s, pal);
    if e.len() == 0 {
        seq![(seq![], pal.diagram_source)]
    } else {
        e
    }
}

fn find_sub(s: &[char], op: &[char]) -> (r: Option<usize>)
    requires
        op@.len() >= 1,
    ensures
        match r {
            Some(i) => i == first_occ(s@, op@, 0) && i + op@.len() <= s@.len(),
            None => first_occ(s@, op@, 0) == -1,
        },
{
    if op.len() > s.len() {
        return None;
    }
    let mut i: usize = 0;
    while i <= s.len() - op.len()
        invariant
            op@.len() >= 1,
            op@.len() <= s@.len(),
            first_occ(s@, op@, 0) == first_occ(s@, op@, i as int),
        decreases s@.len() - i,
    {
        if range_is(s, i, i + op.len(), op) {
            return Some(i);
        }
        i = i + 1;
    }
    None
}

fn operator(k: usize) -> (r: Vec<char>)
    requires
        k < 10,
    ensures
        r@ == edge_operators()[k as int],
{
    let r = match k {
        0 => vec!['<', '-', '-', '>'],
        1 => vec!['-', '.', '-', '>'],
        2 => vec!['-', '-', '>', '>'],
        3 => vec!['<', '<', '-', '-'],
        4 => vec!['=', '=', '>'],
        5 => vec!['-', '-', '>'],
        6 => vec!['-', '-', '-'],
        7 => vec!['-', '>', '>'],
        8 => vec!['-', '-'],
        _ => vec!['-', '>'],
    };
    assert(r@ =~= edge_operators()[k as int]);
    r
}

fn best_operator(s: &[char]) -> (r: Option<(usize, Vec<char>)>)
    ensures
        match r {
            Some((i, op)) => best_op(s@, 10) == Some((i as int, op@)),
            None => best_op(s@, 10) is None,
        },
{
    let mut best: Option<(usize, Vec<char>)> = None;
    let mut k: usize = 0;
    while k < 10
        invariant
            0 <= k <= 10,
            match best {
                Some((i, op)) => best_op(s@, k as int) == Some((i as int, op@)),
                None => best_op(s@, k as int) is None,
            },
        decreases 10 - k,
    {
        let op = operator(k);
        match find_sub(s, op.as_slice()) {
            Some(i) => {
                let take = match &best {
                    None => true,
                    Some((bi, bop)) => i < *bi || (i == *bi && op.len() > bop.len()),
                };
                if take {
                    best = Some((i, op));
                }
            },
            None => {},
        }
        k = k + 1;
    }
    best
}

pub proof fn lemma_edges_text(s: Seq<char>, pal: Palette)
    ensures
        line_text(edges(s, pal)) == s,
    decreases s.len(),
{
    reveal_with_fuel(concat_all, 3);
    if s.len() > 0 {
        lemma_best_op(s, 10);
        match best_op(s, 10) {
            None => {
                let e = seq![(s, pal.diagram_source)];
                assert(e.map_values(|x: SpanV| x.0) =~= seq![s]);
                assert(seq![s].drop_last() =~= Seq::<Seq<char>>::empty());
            },
            Some((i, op)) => {
                let rest = s.skip(i + op.len());
                lemma_edges_text(rest, pal);
                let head: Seq<SpanV> = (if i > 0 {
                    seq![(s.take(i), pal.diagram_source)]
                } else {
                    seq![]
                }) + seq![(op, pal.diagram_edge)];
                let ht = head.map_values(|x: SpanV| x.0);
                assert(edges(s, pal) == head + edges(rest, pal));
                assert((head + edges(rest, pal)).map_values(|x: SpanV| x.0) =~= ht + edges(
                    rest,
                    pal,
                ).map_values(|x: SpanV| x.0));
                lemma_concat_append(ht, edges(rest, pal).map_values(|x: SpanV| x.0));
                reveal_with_fuel(concat_all, 3);
                if i > 0 {
                    assert(ht =~= seq![s.take(i), op]);
                    assert(seq![s.take(i), op].drop_last() =~= seq![s.take(i)]);
                    assert(seq![s.take(i)].drop_last() =~= Seq::<Seq<char>>::empty());
                    assert(concat_all(ht) =~= s.take(i) + op);
                } else {
                    assert(ht =~= seq![op]);
                    assert(seq![op].drop_last() =~= Seq::<Seq<char>>::empty());
                    assert(concat_all(ht) =~= op);
                }
                assert(s =~= s.take(i) + s.subrange(i, i + op.len()) + rest);
                assert(s.subrange(i, i + op.len()) == op);
                assert(line_text(edges(s, pal)) == concat_all(ht + edges(rest, pal).map_values(|x: SpanV| x.0)));
                assert(line_text(edges(s, pal)) == concat_all(ht) + rest);
            },
        }
    }
}

/// Spans for a Mermaid source fragment: edge operators stand out (see `edges`).
pub fn highlight_mermaid_edges(s: &[char], pal: &Palette) -> (r: Vec<Span>)
    ensures
        spans_view(r@) == highlighted_edges(s@, *pal),
{
    let mut spans: Vec<Span> = Vec::new();
    let mut pos: usize = 0;
    let len = s.len();
    assert(s@.skip(0) =~= s@);
    while pos < len
        invariant
            0 <= pos <= len == s@.len(),
            spans_view(spans@) + edges(s@.skip(pos as int), *pal) == edges(s@, *pal),
        decreases len - pos,
    {
        let rest = &s[pos..len];
        assert(rest@ =~= s@.skip(pos as int));
        proof { lemma_best_op(rest@, 10); }
        let ghost before = spans_view(spans@);
        match best_operator(rest) {
            None => {
                spans.push(span(string_of(s, pos, len), pal.diagram_source));
                proof {
                    assert(spans_view(spans@) =~= before.push((rest@, pal.diagram_source)));
                    assert(s@.skip(len as int) =~= Seq::<char>::empty());
                    assert(edges(s@.skip(len as int), *pal) =~= Seq::<SpanV>::empty());
                }
                pos = len;
            },
            Some((i, op)) => {
                let ghost mid = spans_view(spans@);
                if i > 0 {
                    spans.push(span(string_of(s, pos, pos + i), pal.diagram_source));
                    assert(s@.subrange(pos as int, pos + i) =~= rest@.take(i as int));
                }
                let oplen = op.len();
                spans.push(span(string_of(op.as_slice(), 0, oplen), pal.diagram_edge));
                proof {
                    assert(op@.subrange(0, oplen as int) =~= op@);
                    let head: Seq<SpanV> = (if i > 0 {
                        seq![(rest@.take(i as int), pal.diagram_source)]
                    } else {
                        seq![]
                    }) + seq![(op@, pal.diagram_edge)];
                    assert(spans_view(spans@) =~= before + head);
                    assert(rest@.skip(i + oplen) =~= s@.skip(pos + i + oplen));
                    assert(edges(rest@, *pal) == head + edges(rest@.skip(i + oplen), *pal));
                }
                pos = pos + i + oplen;
            },
        }
    }
    if spans.len() == 0 {
        spans.push(span(String::new(), pal.diagram_source));
        assert(spans_view(spans@) =~= seq![(Seq::<char>::empty(), pal.diagram_source)]);
    } else {
        assert(s@.skip(len as int) =~= Seq::<char>::empty());
        assert(spans_view(spans@) + Seq::<SpanV>::empty() =~= spans_view(spans@));
    }
    spans
}

} // verus!

verus! {

/// One line of Mermaid source as spans: a `%%` comment line in one comment span;
/// otherwise a leading keyword stands out and edge operators stand out.
pub open spec fn highlighted_mermaid_line(source: Seq<char>, pal: Palette) -> Seq<SpanV> {
    let t = trim_start_by(source, CharSet::Whitespace);
    if t.len() >= 2 && t[0] == '%' && t[1] == '%' {
        seq![(source, pal.diagram_comment)]
    } else {
        let leading = lead(source, CharSet::Whitespace) as int;
        let kw = t.take(lead(t, CharSet::NotWhitespace) as int);
        if mermaid_keywords().contains(kw) {
            (if leading > 0 {
                seq![(source.take(leading), pal.diagram_source)]
            } else {
                seq![]
            }) + seq![(kw, pal.diagram_keyword)] + highlighted_edges(
                source.skip(leading + kw.len()),
                pal,
            )
        } else {
            highlighted_edges(source, pal)
        }
    }
}

pub proof fn lemma_highlighted_edges_text(s: Seq<char>, pal: Palette)
    ensures
        line_text(highlighted_edges(s, pal)) == s,
{
    lemma_edges_text(s, pal);
    reveal_with_fuel(concat_all, 2);
    if edges(s, pal).len() == 0 {
        assert(highlighted_edges(s, pal).map_values(|x: SpanV| x.0) =~= seq![Seq::<char>::empty()]);
        assert(edges(s, pal).map_values(|x: SpanV| x.0) =~= Seq::<Seq<char>>::empty());
    }
}

/// Highlighting never loses or adds text: the spans of a Mermaid source line read back
/// as the line.
pub proof fn lemma_mermaid_line_text(source: Seq<char>, pal: Palette)
    ensures
        line_text(highlighted_mermaid_line(source, pal)) == source,
{
    reveal_with_fuel(concat_all, 3);
    let t = trim_start_by(source, CharSet::Whitespace);
    crate::text::lemma_lead_bounded(source, CharSet::Whitespace);
    if t.len() >= 2 && t[0] == '%' && t[1] == '%' {
        assert(seq![(source, pal.diagram_comment)].map_values(|x: SpanV| x.0) =~= seq![source]);
        assert(seq![source].drop_last() =~= Seq::<Seq<char>>::empty());
    } else {
        let leading = lead(source, CharSet::Whitespace) as int;
        crate::text::lemma_lead_bounded(t, CharSet::NotWhitespace);
        let kw = t.take(lead(t, CharSet::NotWhitespace) as int);
        if mermaid_keywords().contains(kw) {
            let rest = source.skip(leading + kw.len());
            lemma_highlighted_edges_text(rest, pal);
            let head: Seq<SpanV> = (if leading > 0 {
                seq![(source.take(leading), pal.diagram_source)]
            } else {
                seq![]
            }) + seq![(kw, pal.diagram_keyword)];
            let ht = head.map_values(|x: SpanV| x.0);
            assert((head + highlighted_edges(rest, pal)).map_values(|x: SpanV| x.0) =~= ht
                + highlighted_edges(rest, pal).map_values(|x: SpanV| x.0));
            lemma_concat_append(ht, highlighted_edges(rest, pal).map_values(|x: SpanV| x.0));
            if leading > 0 {
                assert(ht =~= seq![source.take(leading), kw]);
                assert(seq![source.take(leading), kw].drop_last() =~= seq![source.take(leading)]);
                assert(seq![source.take(leading)].drop_last() =~= Seq::<Seq<char>>::empty());
            } else {
                assert(ht =~= seq![kw]);
                assert(seq![kw].drop_last() =~= Seq::<Seq<char>>::empty());
            }
            assert(source =~= source.take(leading) + kw + rest);
        } else {
            lemma_highlighted_edges_text(source, pal);
        }
    }
}

/// Spans for one line of Mermaid source (see `highlighted_mermaid_line`).
pub fn highlight_mermaid_line(source: &[char], pal: &Palette) -> (r: Vec<Span>)
    ensures
        spans_view(r@) == highlighted_mermaid_line(source@, *pal),
{
    let len = source.len();
    assert(source@.subrange(0, len as int) =~= source@);
    let a = skip_set(source, 0, len, CharSet::Whitespace);
    assert(trim_start_by(source@, CharSet::Whitespace) =~= source@.subrange(a as int, len as int));
    if len - a >= 2 && source[a] == '%' && source[a + 1] == '%' {
        let mut r: Vec<Span> = Vec::new();
        r.push(span(string_of(source, 0, len), pal.diagram_comment));
        assert(spans_view(r@) =~= seq![(source@, pal.diagram_comment)]);
        return r;
    }
    let b = skip_set(source, a, len, CharSet::NotWhitespace);
    let ghost t = source@.subrange(a as int, len as int);
    assert(t.take(lead(t, CharSet::NotWhitespace) as int) =~= source@.subrange(a as int, b as int));
    if is_mermaid_keyword(&source[a..b]) {
        let mut r: Vec<Span> = Vec::new();
        if a > 0 {
            r.push(span(string_of(source, 0, a), pal.diagram_source));
        }
        r.push(span(string_of(source, a, b), pal.diagram_keyword));
        let ghost head = spans_view(r@);
        let mut tail = highlight_mermaid_edges(&source[b..len], pal);
        r.append(&mut tail);
        proof {
            assert(source@.subrange(b as int, len as int) =~= source@.skip(b as int));
            assert(source@.take(a as int) =~= source@.subrange(0, a as int));
            assert(spans_view(r@) =~= head + highlighted_edges(source@.skip(b as int), *pal));
        }
        r
    } else {
        highlight_mermaid_edges(source, pal)
    }
}

} // verus!

verus! {

// ---------------------------------------------------------------- model of the renderer

/// Settings of terminal rendering.
#[derive(Clone, Copy, Debug, PartialEq, Eq, Structural)]
pub struct TerminalRenderOptions {
    /// Column limit lines are wrapped to (at least 8).
    pub width: usize,
    pub theme: Theme,
    /// Number the lines of code blocks.
    pub line_numbers: bool,
    /// Keep soft line breaks instead of joining them with a space.
    pub preserve_newlines: bool,
}

impl Default for TerminalRenderOptions {
    fn default() -> (o: TerminalRenderOptions)
        ensures
            o == (TerminalRenderOptions { width: 80, theme: Theme::Auto, line_numbers: false, preserve_newlines: false }),
    {
        TerminalRenderOptions { width: 80, theme: Theme::Auto, line_numbers: false, preserve_newlines: false }
    }
}

/// The theme drawn: `Auto` resolves as it does with no `COLORFGBG` setting (dark); callers
/// that know the terminal resolve it before rendering.
pub open spec fn drawn_theme(o: TerminalRenderOptions) -> Theme {
    resolve_theme(o.theme, seq![])
}

pub open spec fn render_palette(o: TerminalRenderOptions) -> Palette {
    palette_of(drawn_theme(o))
}

/// The state of the renderer between events.
#[verifier::ext_equal]
pub struct BuildState {
    pub lines: Seq<LineV>,
    pub current: LineV,
    pub styles: Seq<Style>,
    pub lists: Seq<Option<u64>>,
    pub quote_depth: usize,
    pub code: Option<(Seq<char>, Seq<char>)>,
    pub link: Option<Seq<char>>,
    pub in_table: bool,
    pub table_cell: usize,
}

pub open spec fn initial_state() -> BuildState {
    BuildState {
        lines: seq![],
        current: seq![],
        styles: seq![plain_style()],
        lists: seq![],
        quote_depth: 0,
        code: None,
        link: None,
        in_table: false,
        table_cell: 0,
    }
}

pub open spec fn repeat_char(c: char, n: nat) -> Seq<char> {
    Seq::new(n, |i: int| c)
}

pub open spec fn current_style(st: BuildState) -> Style {
    if st.styles.len() > 0 {
        st.styles.last()
    } else {
        plain_style()
    }
}

/// Appends a span to the current line; the first span of a line inside block quotes is
/// preceded by one bar per quote level.
pub open spec fn s_push_span(st: BuildState, text: Seq<char>, style: Style, pal: Palette) -> BuildState {
    let bar = if st.current.len() == 0 && st.quote_depth > 0 {
        seq![(repeat_char('│', st.quote_depth as nat).push(' '), pal.quote_bar)]
    } else {
        seq![]
    };
    BuildState { current: st.current + bar + seq![(text, style)], ..st }
}

pub open spec fn s_text(st: BuildState, text: Seq<char>, pal: Palette) -> BuildState {
    s_push_span(st, text, current_style(st), pal)
}

pub open spec fn s_flush_line(st: BuildState) -> BuildState {
    BuildState { lines: st.lines.push(st.current), current: seq![], ..st }
}

pub open spec fn s_flush_nonempty(st: BuildState) -> BuildState {
    if st.current.len() > 0 {
        s_flush_line(st)
    } else {
        st
    }
}

/// Adds an empty line after a line that has content.
pub open spec fn s_blank(st: BuildState) -> BuildState {
    if st.lines.len() > 0 && st.lines.last().len() > 0 {
        BuildState { lines: st.lines.push(seq![]), ..st }
    } else {
        st
    }
}

pub open spec fn s_pop_style(st: BuildState) -> BuildState {
    if st.styles.len() > 1 {
        BuildState { styles: st.styles.drop_last(), ..st }
    } else {
        st
    }
}

pub open spec fn s_push_style(st: BuildState, s: Style) -> BuildState {
    BuildState { styles: st.styles.push(s), ..st }
}

pub open spec fn clamp_width(w: usize) -> nat {
    if w < 8 {
        8
    } else if w > 120 {
        120
    } else {
        w as nat
    }
}

pub open spec fn rule_line(o: TerminalRenderOptions, pal: Palette) -> LineV {
    seq![(repeat_char('─', clamp_width(o.width)), pal.muted)]
}

pub open spec fn sat_inc(n: usize) -> usize {
    if n < usize::MAX {
        (n + 1) as usize
    } else {
        n
    }
}

pub open spec fn heading_style(rank: HeadingRank, pal: Palette) -> Style {
    match rank {
        HeadingRank::H1 => pal.heading1,
        HeadingRank::H2 => pal.heading2,
        _ => pal.heading3,
    }
}

pub open spec fn heading_marker(rank: HeadingRank) -> Seq<char> {
    match rank {
        HeadingRank::H1 => "▌ "@,
        HeadingRank::H2 => "◆ "@,
        _ => "› "@,
    }
}

/// A list item: indentation by nesting depth, then the next number of an ordered list
/// (counting up) or a bullet.
pub open spec fn s_item(st: BuildState, pal: Palette) -> BuildState {
    let s1 = s_flush_nonempty(st);
    let depth = if s1.lists.len() > 0 { s1.lists.len() - 1 } else { 0 };
    let s2 = s_push_span(s1, repeat_char(' ', (2 * depth) as nat), plain_style(), pal);
    if s2.lists.len() > 0 && s2.lists.last() is Some {
        let v = s2.lists.last()->0;
        let next = if v < u64::MAX { (v + 1) as u64 } else { v };
        let s3 = BuildState { lists: s2.lists.update(s2.lists.len() - 1, Some(next)), ..s2 };
        s_push_span(s3, dec(v as nat) + ". "@, pal.bullet, pal)
    } else {
        s_push_span(s2, "• "@, pal.bullet, pal)
    }
}

pub open spec fn s_start(o: TerminalRenderOptions, st: BuildState, tag: TagV) -> BuildState {
    let pal = render_palette(o);
    match tag {
        TagV::Heading(level) => {
            let s1 = s_push_style(s_flush_nonempty(st), heading_style(level, pal));
            s_push_span(s1, heading_marker(level), heading_style(level, pal), pal)
        },
        TagV::BlockQuote => {
            let s1 = s_flush_nonempty(st);
            BuildState { quote_depth: sat_inc(s1.quote_depth), styles: s1.styles.push(pal.quote), ..s1 }
        },
        TagV::CodeBlock(info) => {
            let s1 = s_flush_nonempty(st);
            let language = match info {
                Some(l) => l,
                None => seq![],
            };
            BuildState { code: Some((language, seq![])), ..s1 }
        },
        TagV::List(start) => {
            let s1 = s_flush_nonempty(st);
            BuildState { lists: s1.lists.push(start), ..s1 }
        },
        TagV::Item => s_item(st, pal),
        TagV::Emphasis => s_push_style(st, Style { italic: true, ..current_style(st) }),
        TagV::Strong => s_push_style(st, Style { bold: true, ..current_style(st) }),
        TagV::Strikethrough => s_push_style(st, Style { crossed_out: true, ..current_style(st) }),
        TagV::Link(_, dest, _) => BuildState { link: Some(dest), styles: st.styles.push(pal.link), ..st },
        TagV::Image(dest, _) => {
            let s1 = BuildState { link: Some(dest), styles: st.styles.push(pal.image), ..st };
            s_push_span(s1, "🖼 "@, pal.image, pal)
        },
        TagV::Table(_) => BuildState { in_table: true, ..s_flush_nonempty(st) },
        TagV::TableRow => BuildState { table_cell: 0, ..st },
        TagV::TableCell => {
            let s1 = if st.table_cell > 0 {
                s_push_span(st, " │ "@, pal.muted, pal)
            } else {
                st
            };
            BuildState { table_cell: sat_inc(s1.table_cell), ..s1 }
        },
        TagV::FootnoteDefinition(name) => s_push_span(
            s_flush_nonempty(st),
            "[^"@ + name + "] "@,
            pal.link,
            pal,
        ),
        _ => st,
    }
}

pub open spec fn is_web_link(t: Seq<char>) -> bool {
    (t.len() >= 7 && t.take(7) == "http://"@) || (t.len() >= 8 && t.take(8) == "https://"@)
}

pub open spec fn s_end(o: TerminalRenderOptions, st: BuildState, tag: MdTagEnd) -> BuildState {
    let pal = render_palette(o);
    match tag {
        MdTagEnd::Paragraph => {
            let s1 = s_flush_nonempty(st);
            if s1.lists.len() == 0 && !s1.in_table {
                s_blank(s1)
            } else {
                s1
            }
        },
        MdTagEnd::Heading(_) => s_pop_style(s_blank(s_flush_nonempty(st))),
        MdTagEnd::BlockQuote => {
            let s1 = s_blank(s_flush_nonempty(st));
            let depth = if s1.quote_depth > 0 { (s1.quote_depth - 1) as usize } else { 0 };
            s_pop_style(BuildState { quote_depth: depth, ..s1 })
        },
        MdTagEnd::List(_) => {
            let s1 = s_flush_nonempty(st);
            let lists = if s1.lists.len() > 0 { s1.lists.drop_last() } else { s1.lists };
            let s2 = BuildState { lists, ..s1 };
            if lists.len() == 0 {
                s_blank(s2)
            } else {
                s2
            }
        },
        MdTagEnd::Item => s_flush_nonempty(st),
        MdTagEnd::Emphasis => s_pop_style(st),
        MdTagEnd::Strong => s_pop_style(st),
        MdTagEnd::Strikethrough => s_pop_style(st),
        MdTagEnd::Link => {
            let s1 = s_pop_style(st);
            let s2 = BuildState { link: None, ..s1 };
            match s1.link {
                Some(t) => if is_web_link(t) {
                    s_push_span(s2, " ↗"@, pal.muted, pal)
                } else {
                    s2
                },
                None => s2,
            }
        },
        MdTagEnd::Image => {
            let s1 = s_pop_style(st);
            let s2 = BuildState { link: None, ..s1 };
            match s1.link {
                Some(t) => s_push_span(s2, " ("@ + t + ")"@, pal.muted, pal),
                None => s2,
            }
        },
        MdTagEnd::Table => s_blank(BuildState { in_table: false, ..s_flush_nonempty(st) }),
        MdTagEnd::TableHead => {
            let s1 = s_flush_nonempty(st);
            BuildState { lines: s1.lines.push(rule_line(o, pal)), ..s1 }
        },
        MdTagEnd::TableRow => s_flush_nonempty(st),
        MdTagEnd::FootnoteDefinition => s_blank(s_flush_nonempty(st)),
        _ => st,
    }
}

/// The text of raw HTML without its tags (everything from a `<` to the next `>`).
pub open spec fn strip_tags(s: Seq<char>) -> Seq<char>
    decreases s.len(),
{
    if s.len() == 0 {
        seq![]
    } else {
        strip_tags_state(s.drop_last()).0 + if !strip_tags_state(s.drop_last()).1 && s.last() != '<'
            && s.last() != '>' {
            seq![s.last()]
        } else {
            seq![]
        }
    }
}

/// The kept text of `s` and whether `s` ends inside a tag.
pub open spec fn strip_tags_state(s: Seq<char>) -> (Seq<char>, bool)
    decreases s.len(),
{
    if s.len() == 0 {
        (seq![], false)
    } else {
        let (kept, inside) = strip_tags_state(s.drop_last());
        let c = s.last();
        if c == '<' {
            (kept, true)
        } else if c == '>' {
            (kept, false)
        } else if !inside {
            (kept.push(c), inside)
        } else {
            (kept, inside)
        }
    }
}

/// The lines of `s` with their line breaks (`split_inclusive('\n')`) from `i` on.
pub open spec fn pieces_from(s: Seq<char>, i: int) -> Seq<Seq<char>>
    decreases s.len() - i,
{
    if i < 0 || i >= s.len() {
        seq![]
    } else {
        let e = line_end(s, i);
        proof {
            lemma_find_from_bounds(s, '\n', i);
        }
        seq![s.subrange(i, e)] + pieces_from(s, e)
    }
}

pub open spec fn pieces(s: Seq<char>) -> Seq<Seq<char>> {
    pieces_from(s, 0)
}

/// A line without its `\n` (and a `\r` before it), as `str::lines` yields it.
pub open spec fn without_line_break(p: Seq<char>) -> Seq<char> {
    if p.len() > 0 && p.last() == '\n' {
        let q = p.drop_last();
        if q.len() > 0 && q.last() == '\r' {
            q.drop_last()
        } else {
            q
        }
    } else {
        p
    }
}

/// A line without its trailing `\n`.
pub open spec fn without_newline(p: Seq<char>) -> Seq<char> {
    if p.len() > 0 && p.last() == '\n' {
        p.drop_last()
    } else {
        p
    }
}

/// The pieces of `s` between `c` separators (`str::split`) from `i` on.
pub open spec fn split_from(s: Seq<char>, c: char, i: int) -> Seq<Seq<char>>
    decreases s.len() - i + 1,
{
    if i < 0 || i > s.len() {
        seq![]
    } else {
        let e = find_from(s, c, i);
        proof {
            lemma_find_from_bounds(s, c, i);
        }
        seq![s.subrange(i, e)] + if e < s.len() {
            split_from(s, c, e + 1)
        } else {
            seq![]
        }
    }
}

/// The number column of a code line: the border, then the right-aligned line number.
pub open spec fn numbered(o: TerminalRenderOptions, pal: Palette, border: Style, i: int, digits: nat) -> LineV {
    seq![("│ "@, border)] + if o.line_numbers {
        seq![(padded_dec((i + 1) as nat, digits) + " │ "@, pal.code_number)]
    } else {
        seq![]
    }
}

pub open spec fn number_digits(body: Seq<char>) -> nat {
    let n = pieces(body).len();
    dec(if n == 0 { 1 } else { n }).len()
}

/// The terminal style of a syntect highlight style.
pub open spec fn syn_to_style(s: SynStyle) -> Style {
    Style {
        fg: Some(Color::Rgb(s.fg.0, s.fg.1, s.fg.2)),
        bg: Some(Color::Rgb(s.bg.0, s.bg.1, s.bg.2)),
        bold: s.font & 1 != 0,
        italic: s.font & 4 != 0,
        underlined: s.font & 2 != 0,
        crossed_out: false,
    }
}

pub open spec fn region_spans(rs: Seq<(SynStyle, Seq<char>)>) -> LineV {
    rs.map_values(|r: (SynStyle, Seq<char>)| (r.1, syn_to_style(r.0)))
}

pub open spec fn code_theme_name(o: TerminalRenderOptions) -> Seq<char> {
    if drawn_theme(o) == Theme::Light {
        "InspiredGitHub"@
    } else {
        "base16-ocean.dark"@
    }
}

pub open spec fn code_label(lang: Seq<char>) -> Seq<char> {
    if lang.len() == 0 {
        " code "@
    } else {
        seq![' '] + lang + seq![' ']
    }
}

/// The syntax a code block is highlighted with: the one found for its language, or plain
/// text (`None`) when none is.
pub open spec fn code_syntax(lang: Seq<char>) -> Option<Seq<char>> {
    if token_has_syntax(lang) {
        Some(lang)
    } else {
        None
    }
}

/// The syntax theme a code block is highlighted with: the one for the drawn theme, or the
/// first bundled theme (`None`) when that one is missing.
pub open spec fn code_theme(o: TerminalRenderOptions) -> Option<Seq<char>> {
    if bundled_theme_names().contains(code_theme_name(o)) {
        Some(code_theme_name(o))
    } else {
        None
    }
}

/// The body lines of a highlighted (or, without a theme, plain) code block.
pub open spec fn code_body_lines(o: TerminalRenderOptions, pal: Palette, lang: Seq<char>, body: Seq<char>) -> Seq<LineV> {
    let ps = pieces(body);
    let digits = number_digits(body);
    match highlighted_lines(code_syntax(lang), code_theme(o), ps.map_values(|p: Seq<char>| without_newline(p))) {
        Some(v) => Seq::new(
            ps.len(),
            |i: int|
                numbered(o, pal, pal.code_border, i, digits) + match v[i] {
                    Some(rs) => region_spans(rs),
                    None => seq![(ps[i], pal.code)],
                },
        ),
        None => Seq::new(
            ps.len(),
            |i: int| numbered(o, pal, pal.code_border, i, digits) + seq![(without_line_break(ps[i]), pal.code)],
        ),
    }
}

/// The lines of a Mermaid source card: each source line numbered and highlighted.
pub open spec fn mermaid_lines(o: TerminalRenderOptions, pal: Palette, body: Seq<char>) -> Seq<LineV> {
    let ps = pieces(body);
    let digits = number_digits(body);
    seq![seq![("╭─"@, pal.diagram_border), (" Mermaid diagram · source "@, pal.diagram_label)]]
        + Seq::new(
        ps.len(),
        |i: int|
            numbered(o, pal, pal.diagram_border, i, digits) + highlighted_mermaid_line(
                trim_end_by(ps[i], CharSet::CrLf),
                pal,
            ),
    ) + seq![seq![("╰─"@, pal.diagram_border)]]
}

/// The lines of a fenced or indented code block.
pub open spec fn code_lines(o: TerminalRenderOptions, pal: Palette, language: Seq<char>, body: Seq<char>) -> Seq<LineV> {
    if mermaid_info(language) {
        mermaid_lines(o, pal, body)
    } else {
        let lang = trim(language);
        seq![seq![("╭─"@, pal.code_border), (code_label(lang), pal.code_label)]] + code_body_lines(
            o,
            pal,
            lang,
            body,
        ) + seq![seq![("╰─"@, pal.code_border)]]
    }
}

pub open spec fn s_code_block(o: TerminalRenderOptions, st: BuildState, language: Seq<char>, body: Seq<char>) -> BuildState {
    s_blank(BuildState { lines: st.lines + code_lines(o, render_palette(o), language, body), ..st })
}

/// Display math without one line break after its opening and before its closing `$$`.
pub open spec fn math_body(m: Seq<char>) -> Seq<char> {
    let a = if m.len() >= 2 && m[0] == '\r' && m[1] == '\n' {
        m.skip(2)
    } else if m.len() >= 1 && m[0] == '\n' {
        m.skip(1)
    } else {
        m
    };
    if a.len() >= 2 && a[a.len() - 2] == '\r' && a[a.len() - 1] == '\n' {
        a.take(a.len() - 2)
    } else if a.len() >= 1 && a[a.len() - 1] == '\n' {
        a.take(a.len() - 1)
    } else {
        a
    }
}

/// The lines of a display-math card that keeps the TeX source.
pub open spec fn math_lines(pal: Palette, m: Seq<char>) -> Seq<LineV> {
    let delim = seq![("│ "@, pal.math_border), ("$$"@, pal.math_delimiter)];
    seq![seq![("╭─"@, pal.math_border), (" LaTeX · source "@, pal.math_label)], delim]
        + split_from(math_body(m), '\n', 0).map_values(
        |p: Seq<char>| seq![("│ "@, pal.math_border), (p, pal.math_display)],
    ) + seq![delim, seq![("╰─"@, pal.math_border)]]
}

pub open spec fn s_display_math(o: TerminalRenderOptions, st: BuildState, m: Seq<char>) -> BuildState {
    let s1 = s_flush_nonempty(st);
    s_blank(BuildState { lines: s1.lines + math_lines(render_palette(o), m), ..s1 })
}

/// The effect of one event on the renderer.
pub open spec fn step(o: TerminalRenderOptions, st: BuildState, e: EventV) -> BuildState {
    let pal = render_palette(o);
    match st.code {
        Some((lang, body)) => match e {
            EventV::End(MdTagEnd::CodeBlock) => s_code_block(o, BuildState { code: None, ..st }, lang, body),
            EventV::Text(t) => BuildState { code: Some((lang, body + t)), ..st },
            EventV::Code(t) => BuildState { code: Some((lang, body + t)), ..st },
            EventV::SoftBreak => BuildState { code: Some((lang, body.push('\n'))), ..st },
            EventV::HardBreak => BuildState { code: Some((lang, body.push('\n'))), ..st },
            _ => st,
        },
        None => match e {
            EventV::Start(t) => s_start(o, st, t),
            EventV::End(t) => s_end(o, st, t),
            EventV::Text(t) => s_text(st, t, pal),
            EventV::Code(c) => s_push_span(st, seq![' '] + c + seq![' '], pal.inline_code, pal),
            EventV::SoftBreak => if o.preserve_newlines {
                s_flush_line(st)
            } else {
                s_text(st, seq![' '], pal)
            },
            EventV::HardBreak => s_flush_line(st),
            EventV::Rule => {
                let s1 = s_flush_nonempty(st);
                s_blank(BuildState { lines: s1.lines.push(rule_line(o, pal)), ..s1 })
            },
            EventV::TaskListMarker(b) => s_push_span(st, if b { "☑ "@ } else { "☐ "@ }, pal.accent, pal),
            EventV::FootnoteReference(n) => s_push_span(st, "[^"@ + n + "]"@, pal.link, pal),
            EventV::Html(h) => s_text(st, strip_tags(h), pal),
            EventV::InlineHtml(h) => s_text(st, strip_tags(h), pal),
            EventV::InlineMath(m) => s_push_span(st, seq!['$'] + m + seq!['$'], pal.math_inline, pal),
            EventV::DisplayMath(m) => s_display_math(o, st, m),
        },
    }
}

/// The state after a sequence of events.
pub open spec fn run_events(o: TerminalRenderOptions, st: BuildState, evs: Seq<EventV>) -> BuildState
    decreases evs.len(),
{
    if evs.len() == 0 {
        st
    } else {
        step(o, run_events(o, st, evs.drop_last()), evs.last())
    }
}

/// `lines` without its trailing empty lines.
pub open spec fn drop_trailing_empty(lines: Seq<LineV>) -> Seq<LineV>
    decreases lines.len(),
{
    if lines.len() > 0 && lines.last().len() == 0 {
        drop_trailing_empty(lines.drop_last())
    } else {
        lines
    }
}

} // verus!
