//! The framed cards the terminal renderer draws for code blocks, Mermaid diagrams and
//! display math.

use vstd::prelude::*;
use crate::calls::{bundled_theme_exists, highlight_lines, highlight_view, highlighted_lines, regions_view, syntax_for_token_exists, SynStyle};
use crate::render::style::{lines_view, span, span_str, spans_view, Line, Palette, Span, SpanV, Style};
use crate::render::terminal::{
    code_body_lines, code_label, code_lines, code_syntax, code_theme, code_theme_name, drawn_theme, highlight_mermaid_line,
    highlighted_mermaid_line, math_body, math_lines, mermaid_lines, number_digits, numbered, pieces,
    pieces_from, region_spans, split_from, syn_to_style, without_line_break, without_newline,
    TerminalRenderOptions,
};
use crate::render::{is_mermaid_language_chars, mermaid_info, Theme};
use crate::document::line_end;
use crate::text::{chars_of, decimal_len, find_char, lemma_find_from_bounds, push_padded_decimal,
    skip_set_back, string_of, trim, trim_bounds, CharSet};

verus! {

/// The start and end of each line of `s`, line breaks included (see `pieces`).
pub fn line_ranges(s: &[char]) -> (r: Vec<(usize, usize)>)
    ensures
        r@.len() == pieces(s@).len(),
        forall|k: int|
            0 <= k < r@.len() ==> (#[trigger] r@[k]).0 <= r@[k].1 <= s@.len() && s@.subrange(
                r@[k].0 as int,
                r@[k].1 as int,
            ) == pieces(s@)[k],
{
    let len = s.len();
    let mut r: Vec<(usize, usize)> = Vec::new();
    let mut i: usize = 0;
    let ghost done: Seq<Seq<char>> = seq![];
    while i < len
        invariant
            len == s@.len(),
            i <= len,
            pieces(s@) == done + pieces_from(s@, i as int),
            r@.len() == done.len(),
            forall|k: int|
                0 <= k < r@.len() ==> (#[trigger] r@[k]).0 <= r@[k].1 <= s@.len() && s@.subrange(
                    r@[k].0 as int,
                    r@[k].1 as int,
                ) == done[k],
        decreases len - i,
    {
        proof {
            lemma_find_from_bounds(s@, '\n', i as int);
        }
        let n = find_char(s, '\n', i);
        let e = if n < len {
            n + 1
        } else {
            len
        };
        assert(e as int == line_end(s@, i as int));
        r.push((i, e));
        proof {
            let p = s@.subrange(i as int, e as int);
            assert(pieces_from(s@, i as int) == seq![p] + pieces_from(s@, e as int));
            assert(done + pieces_from(s@, i as int) =~= done.push(p) + pieces_from(s@, e as int));
            done = done.push(p);
        }
        i = e;
    }
    assert(pieces_from(s@, len as int) == Seq::<Seq<char>>::empty());
    assert(done + Seq::<Seq<char>>::empty() =~= done);
    r
}

/// The number column of a code line (see `numbered`).
fn number_column(o: &TerminalRenderOptions, pal: &Palette, border: Style, i: usize, digits: usize) -> (r: Vec<Span>)
    requires
        i < usize::MAX,
    ensures
        spans_view(r@) == numbered(*o, *pal, border, i as int, digits as nat),
{
    let mut r: Vec<Span> = Vec::new();
    r.push(span_str("│ ", border));
    if o.line_numbers {
        let mut s = String::new();
        push_padded_decimal(&mut s, (i + 1) as u64, digits);
        s.append(" │ ");
        r.push(span(s, pal.code_number));
    }
    assert(spans_view(r@) =~= numbered(*o, *pal, border, i as int, digits as nat));
    r
}

/// The terminal style of a syntect style (see `syn_to_style`).
fn syn_style(s: SynStyle) -> (r: Style)
    ensures
        r == syn_to_style(s),
{
    Style {
        fg: Some(crate::render::style::Color::Rgb(s.fg.0, s.fg.1, s.fg.2)),
        bg: Some(crate::render::style::Color::Rgb(s.bg.0, s.bg.1, s.bg.2)),
        bold: s.font & 1 != 0,
        italic: s.font & 4 != 0,
        underlined: s.font & 2 != 0,
        crossed_out: false,
    }
}

fn digits_for(n: usize) -> (r: usize)
    ensures
        r == crate::text::dec(if n == 0 { 1 } else { n as nat }).len(),
{
    decimal_len(if n == 0 { 1 } else { n as u64 })
}

/// The end of a line range without its `\n`.
fn end_without_newline(s: &[char], a: usize, b: usize) -> (e: usize)
    requires
        a <= b <= s@.len(),
    ensures
        a <= e <= b,
        s@.subrange(a as int, e as int) == without_newline(s@.subrange(a as int, b as int)),
{
    let ghost p = s@.subrange(a as int, b as int);
    if b > a && s[b - 1] == '\n' {
        assert(p.drop_last() =~= s@.subrange(a as int, b - 1));
        b - 1
    } else {
        b
    }
}

/// The end of a line range without its line break (`\n` or `\r\n`).
pub fn end_without_line_break_pub(s: &[char], a: usize, b: usize) -> (e: usize)
    requires
        a <= b <= s@.len(),
    ensures
        a <= e <= b,
        s@.subrange(a as int, e as int) == without_line_break(s@.subrange(a as int, b as int)),
{
    end_without_line_break(s, a, b)
}

fn end_without_line_break(s: &[char], a: usize, b: usize) -> (e: usize)
    requires
        a <= b <= s@.len(),
    ensures
        a <= e <= b,
        s@.subrange(a as int, e as int) == without_line_break(s@.subrange(a as int, b as int)),
{
    let ghost p = s@.subrange(a as int, b as int);
    if b > a && s[b - 1] == '\n' {
        assert(p.drop_last() =~= s@.subrange(a as int, b - 1));
        if b - 1 > a && s[b - 2] == '\r' {
            assert(p.drop_last().drop_last() =~= s@.subrange(a as int, b - 2));
            b - 2
        } else {
            b - 1
        }
    } else {
        b
    }
}

/// Whether code is drawn in the light syntax theme.
fn light_code(o: &TerminalRenderOptions) -> (r: bool)
    ensures
        r == (drawn_theme(*o) == Theme::Light),
{
    let none = String::new();
    let t = o.theme.resolved(none.as_str());
    match t {
        Theme::Light => true,
        _ => false,
    }
}

/// The body lines of a code block (see `code_body_lines`).
fn code_body(o: &TerminalRenderOptions, pal: &Palette, lang: &str, body: &[char]) -> (r: Vec<Line>)
    ensures
        lines_view(r@) == code_body_lines(*o, *pal, lang@, body@),
{
    let ranges = line_ranges(body);
    let n = ranges.len();
    let ghost ps = pieces(body@);
    let mut texts: Vec<String> = Vec::new();
    let mut k: usize = 0;
    while k < n
        invariant
            n == ranges@.len() == ps.len(),
            ps == pieces(body@),
            k <= n,
            texts@.len() == k,
            forall|j: int|
                0 <= j < ranges@.len() ==> (#[trigger] ranges@[j]).0 <= ranges@[j].1 <= body@.len()
                    && body@.subrange(ranges@[j].0 as int, ranges@[j].1 as int) == ps[j],
            forall|j: int| 0 <= j < k ==> (#[trigger] texts@[j])@ == without_newline(ps[j]),
        decreases n - k,
    {
        let (a, b) = ranges[k];
        let e = end_without_newline(body, a, b);
        texts.push(string_of(body, a, e));
        k = k + 1;
    }
    let ghost stripped = ps.map_values(|p: Seq<char>| without_newline(p));
    assert(texts@.map_values(|s: String| s@) =~= stripped);
    let digits = digits_for(n);
    let theme: &str = if light_code(o) {
        "InspiredGitHub"
    } else {
        "base16-ocean.dark"
    };
    assert(theme@ == code_theme_name(*o));
    let token = if syntax_for_token_exists(lang) {
        Some(String::from_str(lang))
    } else {
        None
    };
    let syntax_theme = if bundled_theme_exists(theme) {
        Some(String::from_str(theme))
    } else {
        None
    };
    let hl = highlight_lines(&token, &syntax_theme, &texts);
    let ghost expected = code_body_lines(*o, *pal, lang@, body@);
    let mut out: Vec<Line> = Vec::new();
    let mut k: usize = 0;
    while k < n
        invariant
            n == ranges@.len() == ps.len(),
            ps == pieces(body@),
            digits == number_digits(body@),
            expected == code_body_lines(*o, *pal, lang@, body@),
            highlight_view(hl) == highlighted_lines(code_syntax(lang@), code_theme(*o), stripped),
            stripped == ps.map_values(|p: Seq<char>| without_newline(p)),
            hl matches Some(v) ==> v@.len() == n,
            expected.len() == n,
            k <= n,
            out@.len() == k,
            forall|j: int|
                0 <= j < ranges@.len() ==> (#[trigger] ranges@[j]).0 <= ranges@[j].1 <= body@.len()
                    && body@.subrange(ranges@[j].0 as int, ranges@[j].1 as int) == ps[j],
            forall|j: int| 0 <= j < k ==> (#[trigger] lines_view(out@)[j]) == expected[j],
        decreases n - k,
    {
        let (a, b) = ranges[k];
        let mut spans = number_column(o, pal, pal.code_border, k, digits);
        let ghost head = spans_view(spans@);
        match &hl {
            Some(v) => {
                match &v[k] {
                    Some(rs) => {
                        let mut j: usize = 0;
                        while j < rs.len()
                            invariant
                                j <= rs@.len(),
                                spans_view(spans@) == head + region_spans(regions_view(rs@).take(j as int)),
                            decreases rs@.len() - j,
                        {
                            let (st, text) = (rs[j].0, rs[j].1.clone());
                            let ghost tv = text@;
                            let ghost prev = spans_view(spans@);
                            spans.push(span(text, syn_style(st)));
                            assert(regions_view(rs@)[j as int] == (st, tv));
                            assert(regions_view(rs@).take(j + 1) =~= regions_view(rs@).take(j as int).push(
                                regions_view(rs@)[j as int],
                            ));
                            assert(region_spans(regions_view(rs@).take(j + 1)) =~= region_spans(
                                regions_view(rs@).take(j as int),
                            ).push((tv, syn_to_style(st))));
                            assert(spans_view(spans@) =~= prev.push((tv, syn_to_style(st))));
                            assert(spans_view(spans@) =~= head + region_spans(regions_view(rs@).take(j + 1)));
                            j = j + 1;
                        }
                        assert(regions_view(rs@).take(rs@.len() as int) =~= regions_view(rs@));
                    },
                    None => {
                        spans.push(span(string_of(body, a, b), pal.code));
                        assert(spans_view(spans@) =~= head + seq![(ps[k as int], pal.code)]);
                    },
                }
            },
            None => {
                let e = end_without_line_break(body, a, b);
                spans.push(span(string_of(body, a, e), pal.code));
                assert(spans_view(spans@) =~= head + seq![(without_line_break(ps[k as int]), pal.code)]);
            },
        }
        let ghost before = lines_view(out@);
        out.push(Line { spans });
        assert(lines_view(out@) =~= before.push(spans_view(spans@)));
        k = k + 1;
    }
    assert(lines_view(out@) =~= expected);
    out
}

/// The lines of a Mermaid source card (see `mermaid_lines`).
fn mermaid_card(o: &TerminalRenderOptions, pal: &Palette, body: &[char]) -> (r: Vec<Line>)
    ensures
        lines_view(r@) == mermaid_lines(*o, *pal, body@),
{
    let ranges = line_ranges(body);
    let n = ranges.len();
    let ghost ps = pieces(body@);
    let digits = digits_for(n);
    let mut out: Vec<Line> = Vec::new();
    let mut first: Vec<Span> = Vec::new();
    first.push(span_str("╭─", pal.diagram_border));
    first.push(span_str(" Mermaid diagram · source ", pal.diagram_label));
    let line = Line { spans: first };
    assert(line@ =~= seq![("╭─"@, pal.diagram_border), (" Mermaid diagram · source "@, pal.diagram_label)]);
    out.push(line);
    let ghost middle = Seq::new(
        ps.len(),
        |i: int|
            numbered(*o, *pal, pal.diagram_border, i, digits as nat) + highlighted_mermaid_line(
                crate::text::trim_end_by(ps[i], CharSet::CrLf),
                *pal,
            ),
    );
    let ghost top = lines_view(out@);
    let mut k: usize = 0;
    while k < n
        invariant
            n == ranges@.len() == ps.len(),
            ps == pieces(body@),
            middle.len() == n,
            digits == number_digits(body@),
            middle == Seq::new(
                ps.len(),
                |i: int|
                    numbered(*o, *pal, pal.diagram_border, i, digits as nat) + highlighted_mermaid_line(
                        crate::text::trim_end_by(ps[i], CharSet::CrLf),
                        *pal,
                    ),
            ),
            k <= n,
            top.len() == 1,
            out@.len() == k + 1,
            lines_view(out@)[0] == top[0],
            forall|j: int|
                0 <= j < ranges@.len() ==> (#[trigger] ranges@[j]).0 <= ranges@[j].1 <= body@.len()
                    && body@.subrange(ranges@[j].0 as int, ranges@[j].1 as int) == ps[j],
            forall|j: int| 0 <= j < k ==> (#[trigger] lines_view(out@)[j + 1]) == middle[j],
        decreases n - k,
    {
        let (a, b) = ranges[k];
        let mut spans = number_column(o, pal, pal.diagram_border, k, digits);
        let e = skip_set_back(body, a, b, CharSet::CrLf);
        assert(body@.subrange(a as int, e as int) =~= crate::text::trim_end_by(ps[k as int], CharSet::CrLf));
        let ghost head = spans_view(spans@);
        let line = &body[a..e];
        assert(line@ =~= body@.subrange(a as int, e as int));
        let mut tail = highlight_mermaid_line(line, pal);
        let ghost t = spans_view(tail@);
        spans.append(&mut tail);
        assert(spans_view(spans@) =~= head + t);
        let ghost before = lines_view(out@);
        out.push(Line { spans });
        assert(lines_view(out@) =~= before.push(spans_view(spans@)));
        k = k + 1;
    }
    let mut last: Vec<Span> = Vec::new();
    last.push(span_str("╰─", pal.diagram_border));
    let line = Line { spans: last };
    assert(line@ =~= seq![("╰─"@, pal.diagram_border)]);
    let ghost before = lines_view(out@);
    out.push(line);
    proof {
        assert(lines_view(out@) =~= before.push(seq![("╰─"@, pal.diagram_border)]));
        assert(lines_view(out@) =~= mermaid_lines(*o, *pal, body@));
    }
    out
}

/// The lines of a code block card: Mermaid source, or a highlighted listing (see
/// `code_lines`).
pub fn code_card(o: &TerminalRenderOptions, pal: &Palette, language: &str, body: &str) -> (r: Vec<Line>)
    ensures
        lines_view(r@) == code_lines(*o, *pal, language@, body@),
{
    let lang_chars = chars_of(language);
    let body_chars = chars_of(body);
    if is_mermaid_language_chars(lang_chars.as_slice()) {
        return mermaid_card(o, pal, body_chars.as_slice());
    }
    let (a, b) = trim_bounds(lang_chars.as_slice(), 0, lang_chars.len(), CharSet::Whitespace);
    assert(lang_chars@.subrange(0, lang_chars@.len() as int) =~= lang_chars@);
    let lang = string_of(lang_chars.as_slice(), a, b);
    let ghost l = trim(language@);
    assert(lang@ == l);
    let label = if a == b {
        String::from_str(" code ")
    } else {
        let mut s = String::from_str(" ");
        s.append(lang.as_str());
        s.append(" ");
        s
    };
    proof {
        reveal_strlit(" ");
    }
    assert(label@ =~= code_label(l));
    let ghost lv = label@;
    let mut out: Vec<Line> = Vec::new();
    let mut first: Vec<Span> = Vec::new();
    first.push(span_str("╭─", pal.code_border));
    first.push(span(label, pal.code_label));
    let line = Line { spans: first };
    assert(line@ =~= seq![("╭─"@, pal.code_border), (code_label(l), pal.code_label)]);
    out.push(line);
    let ghost top = lines_view(out@);
    let mut body_lines = code_body(o, pal, lang.as_str(), body_chars.as_slice());
    let ghost mid = lines_view(body_lines@);
    out.append(&mut body_lines);
    let mut last: Vec<Span> = Vec::new();
    last.push(span_str("╰─", pal.code_border));
    let line = Line { spans: last };
    assert(line@ =~= seq![("╰─"@, pal.code_border)]);
    let ghost before = lines_view(out@);
    out.push(line);
    proof {
        assert(before =~= top + mid);
        assert(lines_view(out@) =~= before.push(seq![("╰─"@, pal.code_border)]));
        assert(top =~= seq![seq![("╭─"@, pal.code_border), (code_label(l), pal.code_label)]]);
    }
    out
}

/// The bounds of the formula inside display math (see `math_body`).
fn math_bounds(m: &[char]) -> (r: (usize, usize))
    ensures
        r.0 <= r.1 <= m@.len(),
        m@.subrange(r.0 as int, r.1 as int) == math_body(m@),
{
    let len = m.len();
    let a: usize = if len >= 2 && m[0] == '\r' && m[1] == '\n' {
        2
    } else if len >= 1 && m[0] == '\n' {
        1
    } else {
        0
    };
    let ghost s = m@.skip(a as int);
    assert(s =~= m@.subrange(a as int, len as int));
    let b: usize = if len - a >= 2 && m[len - 2] == '\r' && m[len - 1] == '\n' {
        len - 2
    } else if len - a >= 1 && m[len - 1] == '\n' {
        len - 1
    } else {
        len
    };
    proof {
        if len - a >= 2 && m@[len - 2] == '\r' && m@[len - 1] == '\n' {
            assert(s[s.len() - 2] == m@[len - 2]);
            assert(s.take(s.len() - 2) =~= m@.subrange(a as int, b as int));
        } else if len - a >= 1 && m@[len - 1] == '\n' {
            assert(s[s.len() - 1] == m@[len - 1]);
            if s.len() >= 2 {
                assert(s[s.len() - 2] == m@[len - 2]);
            }
            assert(s.take(s.len() - 1) =~= m@.subrange(a as int, b as int));
        } else {
            if s.len() >= 2 {
                assert(s[s.len() - 2] == m@[len - 2]);
            }
            if s.len() >= 1 {
                assert(s[s.len() - 1] == m@[len - 1]);
            }
        }
    }
    (a, b)
}

/// The lines of a display-math card (see `math_lines`).
pub fn math_card(pal: &Palette, math: &str) -> (r: Vec<Line>)
    ensures
        lines_view(r@) == math_lines(*pal, math@),
{
    let m = chars_of(math);
    let (a, b) = math_bounds(m.as_slice());
    let body = &m.as_slice()[a..b];
    assert(body@ =~= math_body(math@));
    let ghost parts = split_from(body@, '\n', 0);
    let mut out: Vec<Line> = Vec::new();
    let mut first: Vec<Span> = Vec::new();
    first.push(span_str("╭─", pal.math_border));
    first.push(span_str(" LaTeX · source ", pal.math_label));
    let line = Line { spans: first };
    assert(line@ =~= seq![("╭─"@, pal.math_border), (" LaTeX · source "@, pal.math_label)]);
    out.push(line);
    let mut open: Vec<Span> = Vec::new();
    open.push(span_str("│ ", pal.math_border));
    open.push(span_str("$$", pal.math_delimiter));
    let line = Line { spans: open };
    assert(line@ =~= seq![("│ "@, pal.math_border), ("$$"@, pal.math_delimiter)]);
    out.push(line);
    let ghost top = lines_view(out@);
    let len = body.len();
    let mut i: usize = 0;
    let mut done = false;
    let ghost got: Seq<Seq<char>> = seq![];
    while !done
        invariant
            len == body@.len(),
            parts == split_from(body@, '\n', 0),
            top.len() == 2,
            out@.len() == 2 + got.len(),
            forall|j: int| 0 <= j < 2 ==> lines_view(out@)[j] == top[j],
            forall|j: int| 0 <= j < got.len() ==> (#[trigger] lines_view(out@)[j + 2]) == seq![("│ "@, pal.math_border), (got[j], pal.math_display)],
            !done ==> i <= len && parts == got + split_from(body@, '\n', i as int),
            done ==> parts == got,
        decreases (if done { 0 } else { len + 2 - i }),
    {
        proof {
            lemma_find_from_bounds(body@, '\n', i as int);
        }
        let e = find_char(body, '\n', i);
        let p = string_of(body, i, e);
        let mut spans: Vec<Span> = Vec::new();
        spans.push(span_str("│ ", pal.math_border));
        let ghost pv = p@;
        spans.push(span(p, pal.math_display));
        let line = Line { spans };
        assert(line@ =~= seq![("│ "@, pal.math_border), (pv, pal.math_display)]);
        let ghost before = lines_view(out@);
        out.push(line);
        proof {
            let piece = body@.subrange(i as int, e as int);
            assert(lines_view(out@) =~= before.push(seq![("│ "@, pal.math_border), (piece, pal.math_display)]));
            assert(split_from(body@, '\n', i as int) == seq![piece] + if e < len {
                split_from(body@, '\n', e + 1)
            } else {
                Seq::<Seq<char>>::empty()
            });
            assert(got + split_from(body@, '\n', i as int) =~= got.push(piece) + if e < len {
                split_from(body@, '\n', e + 1)
            } else {
                Seq::<Seq<char>>::empty()
            });
            got = got.push(piece);
        }
        if e < len {
            i = e + 1;
        } else {
            done = true;
        }
    }
    let ghost mid_out = lines_view(out@);
    let mut close: Vec<Span> = Vec::new();
    close.push(span_str("│ ", pal.math_border));
    close.push(span_str("$$", pal.math_delimiter));
    let line = Line { spans: close };
    assert(line@ =~= seq![("│ "@, pal.math_border), ("$$"@, pal.math_delimiter)]);
    let ghost closing = line@;
    out.push(line);
    let mut last: Vec<Span> = Vec::new();
    last.push(span_str("╰─", pal.math_border));
    let line = Line { spans: last };
    assert(line@ =~= seq![("╰─"@, pal.math_border)]);
    let ghost ending = line@;
    out.push(line);
    assert(lines_view(out@) =~= mid_out.push(closing).push(ending));
    proof {
        let delim = seq![("│ "@, pal.math_border), ("$$"@, pal.math_delimiter)];
        assert(top =~= seq![seq![("╭─"@, pal.math_border), (" LaTeX · source "@, pal.math_label)], delim]);
        let ml = math_lines(*pal, math@);
        assert(ml.len() == lines_view(out@).len());
        assert forall|j: int| 0 <= j < ml.len() implies ml[j] == lines_view(out@)[j] by {
            if 2 <= j < 2 + got.len() {
                assert(mid_out[(j - 2) + 2] == seq![("│ "@, pal.math_border), (got[j - 2], pal.math_display)]);
            }
        }
        assert(lines_view(out@) =~= ml);
    }
    out
}

} // verus!
