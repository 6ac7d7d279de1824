//! Styled terminal text: colours, styles, spans, lines, the palette and ANSI output.

use vstd::prelude::*;
use crate::calls::push_char;
use crate::render::Theme;
use crate::text::{chars_of, concat_all, dec, lemma_concat_step, push_decimal, push_range};

verus! {

/// A terminal colour.
#[derive(Clone, Copy, Debug, PartialEq, Eq, Structural)]
pub enum Color {
    Rgb(u8, u8, u8),
    Indexed(u8),
    Black,
    Red,
    Yellow,
    Cyan,
    Gray,
    DarkGray,
    White,
}

/// Colours and text attributes of a span.
#[derive(Clone, Copy, Debug, PartialEq, Eq, Structural)]
pub struct Style {
    pub fg: Option<Color>,
    pub bg: Option<Color>,
    pub bold: bool,
    pub italic: bool,
    pub underlined: bool,
    pub crossed_out: bool,
}

pub open spec fn plain_style() -> Style {
    Style { fg: None, bg: None, bold: false, italic: false, underlined: false, crossed_out: false }
}

impl Style {
    /// No colours and no attributes.
    pub fn plain() -> (s: Style)
        ensures
            s == plain_style(),
    {
        Style { fg: None, bg: None, bold: false, italic: false, underlined: false, crossed_out: false }
    }
}

/// A piece of text drawn in one style.
#[derive(Debug)]
pub struct Span {
    pub content: String,
    pub style: Style,
}

/// One line of styled text.
#[derive(Debug)]
pub struct Line {
    pub spans: Vec<Span>,
}

/// The model of a span: its text and style.
pub type SpanV = (Seq<char>, Style);

/// The model of a line: its spans.
pub type LineV = Seq<SpanV>;

impl View for Span {
    type V = SpanV;

    open spec fn view(&self) -> SpanV {
        (self.content@, self.style)
    }
}

impl View for Line {
    type V = LineV;

    open spec fn view(&self) -> LineV {
        self.spans@.map_values(|s: Span| s@)
    }
}

pub open spec fn lines_view(v: Seq<Line>) -> Seq<LineV> {
    v.map_values(|l: Line| l@)
}

pub open spec fn spans_view(v: Seq<Span>) -> LineV {
    v.map_values(|s: Span| s@)
}

/// The text of a line without its styles.
pub open spec fn line_text(l: LineV) -> Seq<char> {
    concat_all(l.map_values(|s: SpanV| s.0))
}

pub fn span(content: String, style: Style) -> (s: Span)
    ensures
        s@ == (content@, style),
{
    Span { content, style }
}

pub fn span_str(content: &str, style: Style) -> (s: Span)
    ensures
        s@ == (content@, style),
{
    Span { content: String::from_str(content), style }
}

// ---------------------------------------------------------------- palette

/// The styles the terminal renderer draws with.
#[derive(Clone, Copy, Debug, PartialEq, Eq, Structural)]
pub struct Palette {
    pub accent: Style,
    pub heading1: Style,
    pub heading2: Style,
    pub heading3: Style,
    pub muted: Style,
    pub bullet: Style,
    pub quote: Style,
    pub quote_bar: Style,
    pub inline_code: Style,
    pub code: Style,
    pub code_border: Style,
    pub code_label: Style,
    pub code_number: Style,
    pub link: Style,
    pub image: Style,
    pub math_inline: Style,
    pub math_display: Style,
    pub math_delimiter: Style,
    pub math_border: Style,
    pub math_label: Style,
    pub diagram_source: Style,
    pub diagram_keyword: Style,
    pub diagram_edge: Style,
    pub diagram_comment: Style,
    pub diagram_border: Style,
    pub diagram_label: Style,
}

pub open spec fn sty(fg: Color, bg: Option<Color>, bold: bool, italic: bool, underlined: bool) -> Style {
    Style { fg: Some(fg), bg, bold, italic, underlined, crossed_out: false }
}

fn mk(fg: Color, bg: Option<Color>, bold: bool, italic: bool, underlined: bool) -> (s: Style)
    ensures
        s == sty(fg, bg, bold, italic, underlined),
{
    Style { fg: Some(fg), bg, bold, italic, underlined, crossed_out: false }
}

/// The palette of a theme: text, muted and code background colours differ between the
/// light theme and the others; the accent colours are shared.
pub open spec fn palette_of(theme: Theme) -> Palette {
    let light = theme == Theme::Light;
    let text = if light { Color::Rgb(42, 39, 45) } else { Color::Rgb(232, 228, 235) };
    let muted = if light { Color::Rgb(112, 105, 116) } else { Color::Rgb(135, 127, 141) };
    let code_bg = if light { Color::Rgb(239, 237, 240) } else { Color::Rgb(37, 34, 40) };
    let green = Color::Rgb(4, 181, 117);
    let fuchsia = Color::Rgb(238, 111, 248);
    let yellow = Color::Rgb(236, 253, 101);
    let border = Color::Rgb(87, 81, 92);
    Palette {
        accent: sty(green, None, true, false, false),
        heading1: sty(fuchsia, None, true, false, false),
        heading2: sty(green, None, true, false, false),
        heading3: sty(yellow, None, true, false, false),
        muted: sty(muted, None, false, false, false),
        bullet: sty(fuchsia, None, true, false, false),
        quote: sty(text, None, false, true, false),
        quote_bar: sty(green, None, true, false, false),
        inline_code: sty(yellow, Some(code_bg), false, false, false),
        code: sty(text, Some(code_bg), false, false, false),
        code_border: sty(border, None, false, false, false),
        code_label: sty(green, None, true, false, false),
        code_number: sty(muted, Some(code_bg), false, false, false),
        link: sty(Color::Rgb(89, 174, 255), None, false, false, true),
        image: sty(fuchsia, None, false, true, false),
        math_inline: sty(fuchsia, Some(code_bg), false, false, false),
        math_display: sty(text, Some(code_bg), false, false, false),
        math_delimiter: sty(fuchsia, Some(code_bg), true, false, false),
        math_border: sty(border, None, false, false, false),
        math_label: sty(fuchsia, None, true, false, false),
        diagram_source: sty(text, Some(code_bg), false, false, false),
        diagram_keyword: sty(green, Some(code_bg), true, false, false),
        diagram_edge: sty(fuchsia, Some(code_bg), true, false, false),
        diagram_comment: sty(muted, Some(code_bg), false, true, false),
        diagram_border: sty(border, None, false, false, false),
        diagram_label: sty(green, None, true, false, false),
    }
}

impl Palette {
    pub fn new(theme: Theme) -> (p: Palette)
        ensures
            p == palette_of(theme),
    {
        let light = theme == Theme::Light;
        let text = if light { Color::Rgb(42, 39, 45) } else { Color::Rgb(232, 228, 235) };
        let muted = if light { Color::Rgb(112, 105, 116) } else { Color::Rgb(135, 127, 141) };
        let code_bg = if light { Color::Rgb(239, 237, 240) } else { Color::Rgb(37, 34, 40) };
        let green = Color::Rgb(4, 181, 117);
        let fuchsia = Color::Rgb(238, 111, 248);
        let yellow = Color::Rgb(236, 253, 101);
        let border = Color::Rgb(87, 81, 92);
        Palette {
            accent: mk(green, None, true, false, false),
            heading1: mk(fuchsia, None, true, false, false),
            heading2: mk(green, None, true, false, false),
            heading3: mk(yellow, None, true, false, false),
            muted: mk(muted, None, false, false, false),
            bullet: mk(fuchsia, None, true, false, false),
            quote: mk(text, None, false, true, false),
            quote_bar: mk(green, None, true, false, false),
            inline_code: mk(yellow, Some(code_bg), false, false, false),
            code: mk(text, Some(code_bg), false, false, false),
            code_border: mk(border, None, false, false, false),
            code_label: mk(green, None, true, false, false),
            code_number: mk(muted, Some(code_bg), false, false, false),
            link: mk(Color::Rgb(89, 174, 255), None, false, false, true),
            image: mk(fuchsia, None, false, true, false),
            math_inline: mk(fuchsia, Some(code_bg), false, false, false),
            math_display: mk(text, Some(code_bg), false, false, false),
            math_delimiter: mk(fuchsia, Some(code_bg), true, false, false),
            math_border: mk(border, None, false, false, false),
            math_label: mk(fuchsia, None, true, false, false),
            diagram_source: mk(text, Some(code_bg), false, false, false),
            diagram_keyword: mk(green, Some(code_bg), true, false, false),
            diagram_edge: mk(fuchsia, Some(code_bg), true, false, false),
            diagram_comment: mk(muted, Some(code_bg), false, true, false),
            diagram_border: mk(border, None, false, false, false),
            diagram_label: mk(green, None, true, false, false),
        }
    }
}

// ---------------------------------------------------------------- ANSI

/// The SGR parameters of a colour: `38;2;r;g;b` or `38;5;i` (48 for a background);
/// named colours have none.
pub open spec fn color_code(c: Color, background: bool) -> Option<Seq<char>> {
    let p = if background { seq!['4', '8'] } else { seq!['3', '8'] };
    match c {
        Color::Rgb(r, g, b) => Some(p + seq![';', '2', ';'] + dec(r as nat) + seq![';'] + dec(g as nat)
            + seq![';'] + dec(b as nat)),
        Color::Indexed(i) => Some(p + seq![';', '5', ';'] + dec(i as nat)),
        _ => None,
    }
}

pub open spec fn opt_code(c: Option<Color>, background: bool) -> Seq<Seq<char>> {
    match c {
        Some(c) => match color_code(c, background) {
            Some(code) => seq![code],
            None => seq![],
        },
        None => seq![],
    }
}

pub open spec fn flag_code(on: bool, code: char) -> Seq<Seq<char>> {
    if on { seq![seq![code]] } else { seq![] }
}

/// The SGR parameters of a style in order: bold, italic, underline, strike-through,
/// foreground, background.
pub open spec fn ansi_codes(s: Style) -> Seq<Seq<char>> {
    flag_code(s.bold, '1') + flag_code(s.italic, '3') + flag_code(s.underlined, '4') + flag_code(
        s.crossed_out,
        '9',
    ) + opt_code(s.fg, false) + opt_code(s.bg, true)
}

/// The parameters joined by `;`.
pub open spec fn semicolon_joined(parts: Seq<Seq<char>>) -> Seq<char> {
    crate::text::join_with(parts, seq![';'])
}

/// The escape sequence that selects a style, or nothing for a style with no parameters.
pub open spec fn ansi_prefix(s: Style) -> Seq<char> {
    let codes = ansi_codes(s);
    if codes.len() == 0 {
        seq![]
    } else {
        seq!['\x1b', '['] + semicolon_joined(codes) + seq!['m']
    }
}

pub open spec fn ansi_reset() -> Seq<char> {
    seq!['\x1b', '[', '0', 'm']
}

pub open spec fn span_ansi(s: SpanV, color: bool) -> Seq<char> {
    if color {
        ansi_prefix(s.1) + s.0 + ansi_reset()
    } else {
        s.0
    }
}

pub open spec fn line_ansi(l: LineV, color: bool) -> Seq<char> {
    concat_all(l.map_values(|s: SpanV| span_ansi(s, color))) + seq!['\n']
}

/// Lines as terminal text: each span optionally wrapped in its escape sequence and a
/// reset, each line ended by a newline.
pub open spec fn ansi_text(lines: Seq<LineV>, color: bool) -> Seq<char> {
    concat_all(lines.map_values(|l: LineV| line_ansi(l, color)))
}

fn color_code_exec(c: Color, background: bool) -> (r: Option<String>)
    ensures
        match r {
            Some(s) => color_code(c, background) == Some(s@),
            None => color_code(c, background) is None,
        },
{
    let mut out = String::new();
    if background {
        push_char(&mut out, '4');
    } else {
        push_char(&mut out, '3');
    }
    push_char(&mut out, '8');
    match c {
        Color::Rgb(r, g, b) => {
            push_char(&mut out, ';');
            push_char(&mut out, '2');
            push_char(&mut out, ';');
            push_decimal(&mut out, r as u64);
            push_char(&mut out, ';');
            push_decimal(&mut out, g as u64);
            push_char(&mut out, ';');
            push_decimal(&mut out, b as u64);
            Some(out)
        },
        Color::Indexed(i) => {
            push_char(&mut out, ';');
            push_char(&mut out, '5');
            push_char(&mut out, ';');
            push_decimal(&mut out, i as u64);
            Some(out)
        },
        _ => None,
    }
}

fn single(c: char) -> (r: String)
    ensures
        r@ == seq![c],
{
    let mut r = String::new();
    push_char(&mut r, c);
    r
}

fn push_code(codes: &mut Vec<String>, code: String)
    ensures
        final(codes)@.map_values(|s: String| s@) == old(codes)@.map_values(|s: String| s@).push(code@),
{
    codes.push(code);
    assert(codes@.map_values(|s: String| s@) =~= old(codes)@.map_values(|s: String| s@).push(code@));
}

/// The escape sequence that selects `style` (see `ansi_prefix`).
pub fn ansi_style(style: Style) -> (r: String)
    ensures
        r@ == ansi_prefix(style),
{
    let mut codes: Vec<String> = Vec::new();
    let ghost want = ansi_codes(style);
    proof {
        assert(codes@.map_values(|s: String| s@) =~= Seq::<Seq<char>>::empty());
    }
    if style.bold {
        push_code(&mut codes, single('1'));
    }
    assert(codes@.map_values(|s: String| s@) =~= flag_code(style.bold, '1'));
    if style.italic {
        push_code(&mut codes, single('3'));
    }
    assert(codes@.map_values(|s: String| s@) =~= flag_code(style.bold, '1') + flag_code(style.italic, '3'));
    if style.underlined {
        push_code(&mut codes, single('4'));
    }
    assert(codes@.map_values(|s: String| s@) =~= flag_code(style.bold, '1') + flag_code(style.italic, '3')
        + flag_code(style.underlined, '4'));
    if style.crossed_out {
        push_code(&mut codes, single('9'));
    }
    let ghost flags = flag_code(style.bold, '1') + flag_code(style.italic, '3') + flag_code(
        style.underlined,
        '4',
    ) + flag_code(style.crossed_out, '9');
    assert(codes@.map_values(|s: String| s@) =~= flags);
    if let Some(c) = style.fg {
        if let Some(code) = color_code_exec(c, false) {
            push_code(&mut codes, code);
        }
    }
    assert(codes@.map_values(|s: String| s@) =~= flags + opt_code(style.fg, false));
    if let Some(c) = style.bg {
        if let Some(code) = color_code_exec(c, true) {
            push_code(&mut codes, code);
        }
    }
    assert(codes@.map_values(|s: String| s@) =~= want);
    let mut out = String::new();
    if codes.len() == 0 {
        return out;
    }
    push_char(&mut out, '\x1b');
    push_char(&mut out, '[');
    let ghost head = out@;
    let mut k: usize = 0;
    while k < codes.len()
        invariant
            0 <= k <= codes@.len(),
            codes@.map_values(|s: String| s@) == want,
            head == seq!['\x1b', '['],
            out@ == head + semicolon_joined(want.take(k as int)),
        decreases codes@.len() - k,
    {
        proof {
            crate::text::lemma_join_step(want, seq![';'], k as int);
            assert(want[k as int] == codes@[k as int]@);
        }
        if k > 0 {
            push_char(&mut out, ';');
        }
        let part = chars_of(codes[k].as_str());
        push_range(&mut out, part.as_slice(), 0, part.len());
        assert(part@.subrange(0, part@.len() as int) == part@);
        k = k + 1;
    }
    assert(want.take(codes@.len() as int) == want);
    push_char(&mut out, 'm');
    out
}

/// Lines as terminal text (see `ansi_text`).
pub fn ansi_lines(lines: &Vec<Line>, color: bool) -> (r: String)
    ensures
        r@ == ansi_text(lines_view(lines@), color),
{
    let mut output = String::new();
    let ghost lv = lines_view(lines@);
    let mut i: usize = 0;
    while i < lines.len()
        invariant
            0 <= i <= lines@.len(),
            lv == lines_view(lines@),
            output@ == concat_all(lv.take(i as int).map_values(|l: LineV| line_ansi(l, color))),
        decreases lines@.len() - i,
    {
        let line = &lines[i];
        let ghost before = output@;
        let ghost sv = line@.map_values(|s: SpanV| span_ansi(s, color));
        let mut j: usize = 0;
        while j < line.spans.len()
            invariant
                0 <= j <= line.spans@.len(),
                sv == line@.map_values(|s: SpanV| span_ansi(s, color)),
                output@ == before + concat_all(sv.take(j as int)),
            decreases line.spans@.len() - j,
        {
            let sp = &line.spans[j];
            proof {
                lemma_concat_step(sv, j as int);
                assert(sv[j as int] == span_ansi(sp@, color));
            }
            if color {
                let prefix = ansi_style(sp.style);
                output.append(prefix.as_str());
            }
            output.append(sp.content.as_str());
            if color {
                output.append("\x1b[0m");
                proof { reveal_strlit("\x1b[0m"); }
            }
            j = j + 1;
        }
        push_char(&mut output, '\n');
        proof {
            assert(sv.take(line.spans@.len() as int) == sv);
            let lines_seq = lv.map_values(|l: LineV| line_ansi(l, color));
            assert(lv.take(i + 1).map_values(|l: LineV| line_ansi(l, color)) == lines_seq.take(i + 1));
            assert(lv.take(i as int).map_values(|l: LineV| line_ansi(l, color)) == lines_seq.take(i as int));
            lemma_concat_step(lines_seq, i as int);
            assert(lines_seq[i as int] == line_ansi(line@, color));
        }
        i = i + 1;
    }
    proof {
        assert(lv.take(lines@.len() as int) == lv);
    }
    output
}

// ---------------------------------------------------------------- colour is only escapes

/// A character of an SGR parameter list: a digit or `;`.
pub open spec fn param_char(c: char) -> bool {
    ('0' <= c && c <= '9') || c == ';'
}

pub open spec fn params_only(s: Seq<char>) -> bool {
    forall|i: int| 0 <= i < s.len() ==> param_char(#[trigger] s[i])
}

/// The text with every SGR escape sequence (`ESC [` up to the next `m`) taken out.
pub open spec fn without_sgr(s: Seq<char>) -> Seq<char>
    decreases s.len(),
{
    if s.len() == 0 {
        seq![]
    } else {
        let f: int = crate::text::find_from(s, 'm', 2);
        proof {
            if s.len() >= 2 {
                crate::text::lemma_find_from_bounds(s, 'm', 2);
            }
        }
        if s.len() >= 2 && s[0] == '\x1b' && s[1] == '[' && f < s.len() {
            without_sgr(s.skip(f + 1))
        } else {
            seq![s[0]] + without_sgr(s.skip(1))
        }
    }
}

/// The characters of a text that holds no escape character.
pub open spec fn escape_free(t: Seq<char>) -> bool {
    forall|i: int| 0 <= i < t.len() ==> #[trigger] t[i] != '\x1b'
}

proof fn lemma_dec_params(n: nat)
    ensures
        params_only(dec(n)),
    decreases n,
{
    if n >= 10 {
        lemma_dec_params(n / 10);
        let d: int = (n % 10) as int;
        assert(dec(n) == dec(n / 10).push(crate::text::digit_char(d)));
        assert(param_char(crate::text::digit_char(d)));
    } else {
        assert(param_char(crate::text::digit_char(n as int)));
    }
}

proof fn lemma_join_params(parts: Seq<Seq<char>>)
    requires
        forall|i: int| 0 <= i < parts.len() ==> params_only(#[trigger] parts[i]),
    ensures
        params_only(semicolon_joined(parts)),
    decreases parts.len(),
{
    if parts.len() > 1 {
        let init = parts.drop_last();
        assert forall|i: int| 0 <= i < init.len() implies params_only(#[trigger] init[i]) by {
            assert(init[i] == parts[i]);
        }
        lemma_join_params(init);
        assert(params_only(parts[parts.len() - 1]));
        let j = semicolon_joined(init) + seq![';'] + parts.last();
        assert(semicolon_joined(parts) == j);
        assert forall|i: int| 0 <= i < j.len() implies param_char(#[trigger] j[i]) by {
            if i < semicolon_joined(init).len() {
            } else if i == semicolon_joined(init).len() {
            } else {
                assert(j[i] == parts.last()[i - semicolon_joined(init).len() - 1]);
            }
        }
    } else if parts.len() == 1 {
        assert(semicolon_joined(parts) == parts[0]);
    }
}

proof fn lemma_colour_params(c: Option<Color>, background: bool)
    ensures
        forall|i: int| 0 <= i < opt_code(c, background).len() ==> params_only(#[trigger] opt_code(c, background)[i]),
{
    match c {
        Some(Color::Rgb(r, g, b)) => {
            lemma_dec_params(r as nat);
            lemma_dec_params(g as nat);
            lemma_dec_params(b as nat);
            let p: Seq<char> = if background { seq!['4', '8'] } else { seq!['3', '8'] };
            let x = p + seq![';', '2', ';'] + dec(r as nat) + seq![';'] + dec(g as nat) + seq![';'] + dec(b as nat);
            assert forall|i: int| 0 <= i < x.len() implies param_char(#[trigger] x[i]) by {
                let a = p + seq![';', '2', ';'];
                let b1 = a + dec(r as nat) + seq![';'];
                let b2 = b1 + dec(g as nat) + seq![';'];
                if i < a.len() {
                } else if i < a.len() + dec(r as nat).len() {
                    assert(x[i] == dec(r as nat)[i - a.len()]);
                } else if i < b1.len() {
                } else if i < b1.len() + dec(g as nat).len() {
                    assert(x[i] == dec(g as nat)[i - b1.len()]);
                } else if i < b2.len() {
                } else {
                    assert(x[i] == dec(b as nat)[i - b2.len()]);
                }
            }
            assert(opt_code(c, background) == seq![x]);
        },
        Some(Color::Indexed(n)) => {
            lemma_dec_params(n as nat);
            let p: Seq<char> = if background { seq!['4', '8'] } else { seq!['3', '8'] };
            let x = p + seq![';', '5', ';'] + dec(n as nat);
            assert forall|i: int| 0 <= i < x.len() implies param_char(#[trigger] x[i]) by {
                if i >= 5 {
                    assert(x[i] == dec(n as nat)[i - 5]);
                }
            }
            assert(opt_code(c, background) == seq![x]);
        },
        _ => {},
    }
}

proof fn lemma_codes_params(st: Style)
    ensures
        params_only(semicolon_joined(ansi_codes(st))),
{
    let codes = ansi_codes(st);
    lemma_colour_params(st.fg, false);
    lemma_colour_params(st.bg, true);
    let flags = flag_code(st.bold, '1') + flag_code(st.italic, '3') + flag_code(st.underlined, '4') + flag_code(
        st.crossed_out,
        '9',
    );
    assert forall|i: int| 0 <= i < flags.len() implies params_only(#[trigger] flags[i]) by {
        assert(flags[i] == seq!['1'] || flags[i] == seq!['3'] || flags[i] == seq!['4'] || flags[i] == seq!['9']);
    }
    let f = opt_code(st.fg, false);
    let g = opt_code(st.bg, true);
    assert(codes == flags + f + g);
    assert forall|i: int| 0 <= i < codes.len() implies params_only(#[trigger] codes[i]) by {
        if i < flags.len() {
            assert(codes[i] == flags[i]);
        } else if i < flags.len() + f.len() {
            assert(codes[i] == f[i - flags.len()]);
        } else {
            assert(codes[i] == g[i - flags.len() - f.len()]);
        }
    }
    lemma_join_params(codes);
}

proof fn lemma_plain_prefix(t: Seq<char>, r: Seq<char>)
    requires
        escape_free(t),
    ensures
        without_sgr(t + r) == t + without_sgr(r),
    decreases t.len(),
{
    if t.len() == 0 {
        assert(t + r =~= r);
    } else {
        let x = t + r;
        assert(x[0] == t[0]);
        assert(x.skip(1) =~= t.skip(1) + r);
        lemma_plain_prefix(t.skip(1), r);
        assert(seq![t[0]] + (t.skip(1) + without_sgr(r)) =~= t + without_sgr(r));
    }
}

proof fn lemma_escape_prefix(codes: Seq<char>, r: Seq<char>)
    requires
        params_only(codes),
    ensures
        without_sgr(seq!['\x1b', '['] + codes + seq!['m'] + r) == without_sgr(r),
{
    let x = seq!['\x1b', '['] + codes + seq!['m'] + r;
    let k: int = (codes.len() + 2) as int;
    assert(x[k] == 'm');
    assert forall|j: int| 2 <= j < k implies #[trigger] x[j] != 'm' by {
        assert(x[j] == codes[j - 2]);
        assert(param_char(codes[j - 2]));
    }
    crate::text::lemma_find_from_bounds(x, 'm', 2);
    let f: int = crate::text::find_from(x, 'm', 2);
    assert(f == k);
    assert(x.skip(k + 1) =~= r);
}

proof fn lemma_span_escapes(sp: SpanV, r: Seq<char>)
    requires
        escape_free(sp.0),
    ensures
        without_sgr(span_ansi(sp, true) + r) == sp.0 + without_sgr(r),
{
    let reset_codes = seq!['0'];
    assert(params_only(reset_codes));
    assert(ansi_reset() == seq!['\x1b', '['] + reset_codes + seq!['m']);
    lemma_escape_prefix(reset_codes, r);
    lemma_plain_prefix(sp.0, ansi_reset() + r);
    let pre = ansi_prefix(sp.1);
    if ansi_codes(sp.1).len() == 0 {
        assert(span_ansi(sp, true) + r =~= sp.0 + (ansi_reset() + r));
    } else {
        lemma_codes_params(sp.1);
        let codes = semicolon_joined(ansi_codes(sp.1));
        lemma_escape_prefix(codes, sp.0 + (ansi_reset() + r));
        assert(span_ansi(sp, true) + r =~= seq!['\x1b', '['] + codes + seq!['m'] + (sp.0 + (ansi_reset() + r)));
    }
}

proof fn lemma_spans_escapes(l: LineV, r: Seq<char>)
    requires
        forall|j: int| 0 <= j < l.len() ==> escape_free(#[trigger] l[j].0),
    ensures
        without_sgr(concat_all(l.map_values(|s: SpanV| span_ansi(s, true))) + r) == concat_all(
            l.map_values(|s: SpanV| span_ansi(s, false)),
        ) + without_sgr(r),
    decreases l.len(),
{
    let c = l.map_values(|s: SpanV| span_ansi(s, true));
    let p = l.map_values(|s: SpanV| span_ansi(s, false));
    if l.len() == 0 {
        assert(concat_all(c) =~= Seq::<char>::empty());
        assert(concat_all(p) =~= Seq::<char>::empty());
        assert(concat_all(c) + r =~= r);
        assert(concat_all(p) + without_sgr(r) =~= without_sgr(r));
    } else {
        let init = l.drop_last();
        let last = l.last();
        assert(escape_free(l[l.len() - 1].0));
        assert forall|j: int| 0 <= j < init.len() implies escape_free(#[trigger] init[j].0) by {
            assert(init[j] == l[j]);
        }
        assert(c.drop_last() =~= init.map_values(|s: SpanV| span_ansi(s, true)));
        assert(p.drop_last() =~= init.map_values(|s: SpanV| span_ansi(s, false)));
        lemma_span_escapes(last, r);
        lemma_spans_escapes(init, span_ansi(last, true) + r);
        assert(concat_all(c) + r =~= concat_all(c.drop_last()) + (span_ansi(last, true) + r));
        assert(concat_all(p) + without_sgr(r) =~= concat_all(p.drop_last()) + (last.0 + without_sgr(r)));
    }
}

proof fn lemma_lines_escapes(lines: Seq<LineV>, r: Seq<char>)
    requires
        forall|i: int, j: int| 0 <= i < lines.len() && 0 <= j < lines[i].len() ==> escape_free(#[trigger] lines[i][j].0),
    ensures
        without_sgr(ansi_text(lines, true) + r) == ansi_text(lines, false) + without_sgr(r),
    decreases lines.len(),
{
    if lines.len() == 0 {
        assert(ansi_text(lines, true) =~= Seq::<char>::empty());
        assert(ansi_text(lines, false) =~= Seq::<char>::empty());
        assert(ansi_text(lines, true) + r =~= r);
        assert(ansi_text(lines, false) + without_sgr(r) =~= without_sgr(r));
    } else {
        let init = lines.drop_last();
        let last = lines.last();
        assert forall|i: int, j: int| 0 <= i < init.len() && 0 <= j < init[i].len() implies escape_free(
            #[trigger] init[i][j].0,
        ) by {
            assert(init[i] == lines[i]);
        }
        assert forall|j: int| 0 <= j < last.len() implies escape_free(#[trigger] last[j].0) by {
            assert(last == lines[lines.len() - 1]);
        }
        let cs = concat_all(last.map_values(|s: SpanV| span_ansi(s, true)));
        let ps = concat_all(last.map_values(|s: SpanV| span_ansi(s, false)));
        assert(escape_free(seq!['\n']));
        lemma_plain_prefix(seq!['\n'], r);
        lemma_spans_escapes(last, seq!['\n'] + r);
        lemma_lines_escapes(init, line_ansi(last, true) + r);
        let ci = lines.map_values(|l: LineV| line_ansi(l, true));
        let pi = lines.map_values(|l: LineV| line_ansi(l, false));
        assert(ci.drop_last() =~= init.map_values(|l: LineV| line_ansi(l, true)));
        assert(pi.drop_last() =~= init.map_values(|l: LineV| line_ansi(l, false)));
        assert(ansi_text(lines, true) + r =~= ansi_text(init, true) + (line_ansi(last, true) + r));
        assert(line_ansi(last, true) + r =~= cs + (seq!['\n'] + r));
        assert(ansi_text(lines, false) + without_sgr(r) =~= ansi_text(init, false) + (ps + (seq!['\n'] + without_sgr(r))));
    }
}

/// Colour adds nothing but escape sequences: taking the SGR sequences out of the coloured
/// rendering gives the plain one, provided no text holds an escape character.
pub proof fn lemma_colour_is_only_escapes(lines: Seq<LineV>)
    requires
        forall|i: int, j: int| 0 <= i < lines.len() && 0 <= j < lines[i].len() ==> escape_free(#[trigger] lines[i][j].0),
    ensures
        without_sgr(ansi_text(lines, true)) == ansi_text(lines, false),
{
    lemma_lines_escapes(lines, seq![]);
    assert(ansi_text(lines, true) + seq![] =~= ansi_text(lines, true));
    assert(ansi_text(lines, false) + without_sgr(seq![]) =~= ansi_text(lines, false));
}

} // verus!

