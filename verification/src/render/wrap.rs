//! Wrapping styled lines to a column limit by display width, one grapheme cluster at a
//! time.

use vstd::prelude::*;
use crate::calls::{display_width, grapheme_clusters, graphemes, str_width};
use crate::render::style::{line_text, lines_view, span, spans_view, Line, LineV, Span, SpanV, Style};
use crate::text::{concat_all, lemma_concat_append, lemma_concat_step};

verus! {

/// The display width of a line: the sum of the widths of its spans.
pub open spec fn total_width(l: LineV) -> int
    decreases l.len(),
{
    if l.len() == 0 {
        0
    } else {
        total_width(l.drop_last()) + display_width(l.last().0) as int
    }
}

/// Progress of wrapping one line: the lines finished so far, the spans of the line being
/// filled, the columns it uses and the text gathered for the span being cut.
pub struct WrapState {
    pub out: Seq<LineV>,
    pub current: LineV,
    pub used: int,
    pub chunk: Seq<char>,
}

/// Places one grapheme of a span drawn in `style`: when it would overflow a line that
/// already holds something, the line is finished first.
pub open spec fn grapheme_step(st: WrapState, g: Seq<char>, style: Style, limit: nat) -> WrapState {
    let gw = display_width(g) as int;
    if st.used + gw > limit && st.used > 0 {
        let cur = if st.chunk.len() > 0 {
            st.current.push((st.chunk, style))
        } else {
            st.current
        };
        WrapState { out: st.out.push(cur), current: seq![], used: gw, chunk: g }
    } else {
        WrapState { used: st.used + gw, chunk: st.chunk + g, ..st }
    }
}

pub open spec fn wrap_graphemes(st: WrapState, gs: Seq<Seq<char>>, style: Style, limit: nat) -> WrapState
    decreases gs.len(),
{
    if gs.len() == 0 {
        st
    } else {
        grapheme_step(wrap_graphemes(st, gs.drop_last(), style, limit), gs.last(), style, limit)
    }
}

/// Places a whole span, grapheme by grapheme; what is left of it joins the current line.
pub open spec fn span_step(st: WrapState, sp: SpanV, limit: nat) -> WrapState {
    let s1 = wrap_graphemes(WrapState { chunk: seq![], ..st }, grapheme_clusters(sp.0), sp.1, limit);
    WrapState {
        current: if s1.chunk.len() > 0 {
            s1.current.push((s1.chunk, sp.1))
        } else {
            s1.current
        },
        chunk: seq![],
        ..s1
    }
}

pub open spec fn wrap_spans(st: WrapState, spans: LineV, limit: nat) -> WrapState
    decreases spans.len(),
{
    if spans.len() == 0 {
        st
    } else {
        span_step(wrap_spans(st, spans.drop_last(), limit), spans.last(), limit)
    }
}

pub open spec fn empty_wrap() -> WrapState {
    WrapState { out: seq![], current: seq![], used: 0, chunk: seq![] }
}

/// One line wrapped to `limit` columns: a line that fits, or an empty one, stays whole.
pub open spec fn wrapped_line(l: LineV, limit: nat) -> Seq<LineV> {
    if total_width(l) <= limit || l.len() == 0 {
        seq![l]
    } else {
        let st = wrap_spans(empty_wrap(), l, limit);
        st.out.push(st.current)
    }
}

pub open spec fn wrapped(lines: Seq<LineV>, limit: nat) -> Seq<LineV>
    decreases lines.len(),
{
    if lines.len() == 0 {
        seq![]
    } else {
        wrapped(lines.drop_last(), limit) + wrapped_line(lines.last(), limit)
    }
}

pub proof fn lemma_total_width_prefix(l: LineV, k: int)
    requires
        0 <= k <= l.len(),
    ensures
        total_width(l.take(k)) <= total_width(l),
    decreases l.len() - k,
{
    if k < l.len() {
        lemma_total_width_prefix(l, k + 1);
        assert(l.take(k + 1).drop_last() =~= l.take(k));
    } else {
        assert(l.take(k) =~= l);
    }
}

/// Whether a line fits in `width` columns.
fn fits(l: &Line, width: usize) -> (r: bool)
    ensures
        r == (total_width(l@) <= width),
{
    let n = l.spans.len();
    let mut total: usize = 0;
    let mut k: usize = 0;
    while k < n
        invariant
            n == l.spans@.len() == l@.len(),
            k <= n,
            total == total_width(l@.take(k as int)),
            total <= width,
        decreases n - k,
    {
        let w = str_width(l.spans[k].content.as_str());
        assert(l@.take(k + 1).drop_last() =~= l@.take(k as int));
        assert(l@[k as int].0 == l.spans@[k as int].content@);
        if w > width - total {
            proof {
                lemma_total_width_prefix(l@, k + 1);
            }
            return false;
        }
        total = total + w;
        k = k + 1;
    }
    assert(l@.take(n as int) =~= l@);
    true
}

impl Line {
    /// The display width of the line (the sum of its spans' widths, at most `usize::MAX`).
    pub fn width(&self) -> (w: usize)
        ensures
            w as int == if total_width(self@) <= usize::MAX { total_width(self@) } else { usize::MAX as int },
    {
        let n = self.spans.len();
        let mut total: usize = 0;
        let mut k: usize = 0;
        while k < n
            invariant
                n == self.spans@.len() == self@.len(),
                k <= n,
                total as int == if total_width(self@.take(k as int)) <= usize::MAX {
                    total_width(self@.take(k as int))
                } else {
                    usize::MAX as int
                },
            decreases n - k,
        {
            let w = str_width(self.spans[k].content.as_str());
            assert(self@.take(k + 1).drop_last() =~= self@.take(k as int));
            assert(self@[k as int].0 == self.spans@[k as int].content@);
            total = total.saturating_add(w);
            k = k + 1;
        }
        assert(self@.take(n as int) =~= self@);
        total
    }
}

fn copy_span(s: &Span) -> (r: Span)
    ensures
        r@ == s@,
{
    span(s.content.clone(), s.style)
}

fn copy_line(l: &Line) -> (r: Line)
    ensures
        r@ == l@,
{
    let mut spans: Vec<Span> = Vec::new();
    let mut k: usize = 0;
    while k < l.spans.len()
        invariant
            k <= l.spans@.len(),
            spans_view(spans@) == l@.take(k as int),
        decreases l.spans@.len() - k,
    {
        let ghost before = spans_view(spans@);
        spans.push(copy_span(&l.spans[k]));
        assert(spans_view(spans@) =~= before.push(l@[k as int]));
        assert(l@.take(k + 1) =~= l@.take(k as int).push(l@[k as int]));
        k = k + 1;
    }
    assert(l@.take(l@.len() as int) =~= l@);
    Line { spans }
}

/// Cuts one span into the lines being built (see `span_step`).
fn wrap_span(
    sp: &Span,
    width: usize,
    out: &mut Vec<Line>,
    current: &mut Vec<Span>,
    used: &mut usize,
)
    ensures
        ({
            let st = WrapState {
                out: lines_view(old(out)@),
                current: spans_view(old(current)@),
                used: *old(used) as int,
                chunk: seq![],
            };
            let s1 = span_step(st, sp@, width as nat);
            &&& lines_view(final(out)@) == s1.out
            &&& spans_view(final(current)@) == s1.current
            &&& *final(used) as int == s1.used
            &&& s1.chunk.len() == 0
        }),
{
    let gs = graphemes(sp.content.as_str());
    let ghost gv = gs@.map_values(|x: String| x@);
    let ghost st0 = WrapState {
        out: lines_view(out@),
        current: spans_view(current@),
        used: *used as int,
        chunk: seq![],
    };
    let style = sp.style;
    let mut chunk = String::new();
    let mut chunk_has = false;
    let mut m: usize = 0;
    assert(gv.take(0) =~= Seq::<Seq<char>>::empty());
    while m < gs.len()
        invariant
            m <= gs@.len(),
            gv == gs@.map_values(|x: String| x@),
            gv == grapheme_clusters(sp@.0),
            style == sp@.1,
            forall|i: int| 0 <= i < gs@.len() ==> (#[trigger] gs@[i])@.len() > 0,
            chunk_has == (chunk@.len() > 0),
            ({
                let s = wrap_graphemes(st0, gv.take(m as int), style, width as nat);
                &&& lines_view(out@) == s.out
                &&& spans_view(current@) == s.current
                &&& *used as int == s.used
                &&& chunk@ == s.chunk
            }),
        decreases gs@.len() - m,
    {
        let g = &gs[m];
        let gw = str_width(g.as_str());
        let ghost prev = wrap_graphemes(st0, gv.take(m as int), style, width as nat);
        assert(gv.take(m + 1).drop_last() =~= gv.take(m as int));
        assert(gv.take(m + 1).last() == g@);
        if *used > 0 && (*used > width || gw > width - *used) {
            let ghost cur_before = spans_view(current@);
            if chunk_has {
                let mut piece = String::new();
                std::mem::swap(&mut piece, &mut chunk);
                current.push(span(piece, style));
                assert(spans_view(current@) =~= cur_before.push((prev.chunk, style)));
            }
            assert(chunk@ =~= Seq::<char>::empty());
            let mut finished: Vec<Span> = Vec::new();
            std::mem::swap(&mut finished, current);
            let ghost lv = spans_view(finished@);
            let ghost out_before = lines_view(out@);
            out.push(Line { spans: finished });
            proof {
                assert(lines_view(out@) =~= out_before.push(lv));
                assert(spans_view(current@) =~= Seq::<SpanV>::empty());
            }
            *used = gw;
            chunk.append(g.as_str());
            chunk_has = true;
            assert(chunk@ =~= g@);
            assert(prev.used + gw > width && prev.used > 0);
        } else {
            assert(!(prev.used + gw > width && prev.used > 0));
            *used = *used + gw;
            chunk.append(g.as_str());
            chunk_has = true;
        }
        m = m + 1;
    }
    assert(gv.take(gs@.len() as int) =~= gv);
    if chunk_has {
        current.push(span(chunk, style));
    }
}

/// Appends the lines that `l` wraps into (see `wrapped_line`).
fn wrap_line(l: &Line, width: usize, out: &mut Vec<Line>)
    ensures
        lines_view(final(out)@) == lines_view(old(out)@) + wrapped_line(l@, width as nat),
{
    if l.spans.len() == 0 || fits(l, width) {
        let ghost before = lines_view(out@);
        out.push(copy_line(l));
        assert(lines_view(out@) =~= before + seq![l@]);
        return;
    }
    let n = l.spans.len();
    let mut local: Vec<Line> = Vec::new();
    let mut current: Vec<Span> = Vec::new();
    let mut used: usize = 0;
    let mut k: usize = 0;
    assert(l@.take(0) =~= Seq::<SpanV>::empty());
    assert(lines_view(local@) =~= Seq::<LineV>::empty());
    assert(spans_view(current@) =~= Seq::<SpanV>::empty());
    while k < n
        invariant
            n == l.spans@.len() == l@.len(),
            k <= n,
            ({
                let st = wrap_spans(empty_wrap(), l@.take(k as int), width as nat);
                &&& lines_view(local@) == st.out
                &&& spans_view(current@) == st.current
                &&& used as int == st.used
                &&& st.chunk.len() == 0
            }),
        decreases n - k,
    {
        proof {
            let st = wrap_spans(empty_wrap(), l@.take(k as int), width as nat);
            assert(st.chunk =~= Seq::<char>::empty());
            assert(l@.take(k + 1).drop_last() =~= l@.take(k as int));
        }
        wrap_span(&l.spans[k], width, &mut local, &mut current, &mut used);
        k = k + 1;
    }
    assert(l@.take(n as int) =~= l@);
    let ghost lv = spans_view(current@);
    local.push(Line { spans: current });
    let ghost before = lines_view(out@);
    let ghost mid = lines_view(local@);
    out.append(&mut local);
    assert(lines_view(out@) =~= before + mid);
}

/// Wraps every line to `width` columns by display width (see `wrapped`).
pub fn wrap_lines(lines: &Vec<Line>, width: usize) -> (r: Vec<Line>)
    ensures
        lines_view(r@) == wrapped(lines_view(lines@), width as nat),
{
    let mut out: Vec<Line> = Vec::new();
    let mut k: usize = 0;
    let ghost lv = lines_view(lines@);
    assert(lv.take(0) =~= Seq::<LineV>::empty());
    assert(lines_view(out@) =~= Seq::<LineV>::empty());
    while k < lines.len()
        invariant
            lv == lines_view(lines@),
            k <= lines@.len(),
            lines_view(out@) == wrapped(lv.take(k as int), width as nat),
        decreases lines@.len() - k,
    {
        assert(lv.take(k + 1).drop_last() =~= lv.take(k as int));
        wrap_line(&lines[k], width, &mut out);
        k = k + 1;
    }
    assert(lv.take(lines@.len() as int) =~= lv);
    out
}

// ---------------------------------------------------------------- text is kept

/// The text of lines, one after another, without line breaks.
pub open spec fn all_text(lines: Seq<LineV>) -> Seq<char> {
    concat_all(lines.map_values(|l: LineV| line_text(l)))
}

/// Whether the grapheme clusters of each span's text read back as that text.
pub open spec fn clusters_cover(l: LineV) -> bool {
    forall|j: int| 0 <= j < l.len() ==> concat_all(grapheme_clusters(#[trigger] l[j].0)) == l[j].0
}

pub open spec fn state_text(st: WrapState) -> Seq<char> {
    all_text(st.out) + line_text(st.current) + st.chunk
}

proof fn lemma_all_text_push(lines: Seq<LineV>, l: LineV)
    ensures
        all_text(lines.push(l)) == all_text(lines) + line_text(l),
{
    assert(lines.push(l).map_values(|x: LineV| line_text(x)) =~= lines.map_values(|x: LineV| line_text(x)).push(
        line_text(l),
    ));
    assert(lines.map_values(|x: LineV| line_text(x)).push(line_text(l)).drop_last() =~= lines.map_values(
        |x: LineV| line_text(x),
    ));
}

proof fn lemma_line_text_push(l: LineV, sp: SpanV)
    ensures
        line_text(l.push(sp)) == line_text(l) + sp.0,
{
    assert(l.push(sp).map_values(|s: SpanV| s.0) =~= l.map_values(|s: SpanV| s.0).push(sp.0));
    assert(l.map_values(|s: SpanV| s.0).push(sp.0).drop_last() =~= l.map_values(|s: SpanV| s.0));
}

proof fn lemma_grapheme_step_text(st: WrapState, g: Seq<char>, style: Style, limit: nat)
    ensures
        state_text(grapheme_step(st, g, style, limit)) == state_text(st) + g,
{
    let gw = display_width(g) as int;
    if st.used + gw > limit && st.used > 0 {
        let cur = if st.chunk.len() > 0 {
            st.current.push((st.chunk, style))
        } else {
            st.current
        };
        lemma_all_text_push(st.out, cur);
        if st.chunk.len() > 0 {
            lemma_line_text_push(st.current, (st.chunk, style));
        } else {
            assert(st.chunk =~= Seq::<char>::empty());
        }
        assert(line_text(Seq::<SpanV>::empty()) =~= Seq::<char>::empty());
        assert(state_text(grapheme_step(st, g, style, limit)) =~= state_text(st) + g);
    } else {
        assert(state_text(grapheme_step(st, g, style, limit)) =~= state_text(st) + g);
    }
}

proof fn lemma_wrap_graphemes_text(st: WrapState, gs: Seq<Seq<char>>, style: Style, limit: nat)
    ensures
        state_text(wrap_graphemes(st, gs, style, limit)) == state_text(st) + concat_all(gs),
    decreases gs.len(),
{
    if gs.len() == 0 {
        assert(state_text(st) + concat_all(gs) =~= state_text(st));
    } else {
        lemma_wrap_graphemes_text(st, gs.drop_last(), style, limit);
        lemma_grapheme_step_text(wrap_graphemes(st, gs.drop_last(), style, limit), gs.last(), style, limit);
        assert(state_text(st) + concat_all(gs.drop_last()) + gs.last() =~= state_text(st) + concat_all(gs));
    }
}

proof fn lemma_wrap_spans_text(spans: LineV, limit: nat)
    requires
        clusters_cover(spans),
    ensures
        wrap_spans(empty_wrap(), spans, limit).chunk.len() == 0,
        state_text(wrap_spans(empty_wrap(), spans, limit)) == line_text(spans),
    decreases spans.len(),
{
    if spans.len() == 0 {
        assert(state_text(empty_wrap()) =~= Seq::<char>::empty());
        assert(line_text(spans) =~= Seq::<char>::empty());
    } else {
        let init = spans.drop_last();
        assert forall|j: int| 0 <= j < init.len() implies concat_all(grapheme_clusters(#[trigger] init[j].0))
            == init[j].0 by {
            assert(init[j] == spans[j]);
        }
        lemma_wrap_spans_text(init, limit);
        let st = wrap_spans(empty_wrap(), init, limit);
        let sp = spans.last();
        assert(sp == spans[spans.len() - 1]);
        let st0 = WrapState { chunk: seq![], ..st };
        assert(st.chunk =~= Seq::<char>::empty());
        assert(state_text(st0) =~= state_text(st));
        lemma_wrap_graphemes_text(st0, grapheme_clusters(sp.0), sp.1, limit);
        let s1 = wrap_graphemes(st0, grapheme_clusters(sp.0), sp.1, limit);
        if s1.chunk.len() > 0 {
            lemma_line_text_push(s1.current, (s1.chunk, sp.1));
        } else {
            assert(s1.chunk =~= Seq::<char>::empty());
        }
        lemma_line_text_push(init, sp);
        assert(init.push(sp) =~= spans);
        assert(state_text(span_step(st, sp, limit)) =~= state_text(s1));
    }
}

/// Wrapping keeps the text: the lines a line wraps into, read one after another, give
/// back the line's text, provided the grapheme clusters of each span read back as it.
pub proof fn lemma_wrapped_line_text(l: LineV, limit: nat)
    requires
        clusters_cover(l),
    ensures
        all_text(wrapped_line(l, limit)) == line_text(l),
{
    if total_width(l) <= limit || l.len() == 0 {
        lemma_all_text_push(Seq::<LineV>::empty(), l);
        assert(seq![l] =~= Seq::<LineV>::empty().push(l));
        assert(all_text(Seq::<LineV>::empty()) =~= Seq::<char>::empty());
    } else {
        lemma_wrap_spans_text(l, limit);
        let st = wrap_spans(empty_wrap(), l, limit);
        lemma_all_text_push(st.out, st.current);
        assert(st.chunk =~= Seq::<char>::empty());
    }
}

} // verus!
