//! The HTML renderer's own parts: links rewritten to the site's routes, the fragments for
//! math and Mermaid diagrams (and their fallbacks), and the sanitiser settings. Running
//! the TeX and Mermaid renderers, which may panic, is the caller's part.

use vstd::prelude::*;
use vstd::string::StringSliceAdditionalSpecFns;
use crate::calls::{allowed_tags_accepted, attributes_accepted, clean_content_tag, base64_encode, base64_of, clean_strict, cleaned_strict, encode_attribute, encode_text,
    escaped_attr, escaped_text};
use crate::render::terminal::{pieces, without_line_break};
use crate::render::cards::line_ranges;
use crate::text::{chars_of, string_of, string_views, trim, trim_bounds, CharSet};

verus! {

// ---------------------------------------------------------------- text helpers

/// The first `limit` characters of `v`, with `…` when something was cut.
pub open spec fn truncated(v: Seq<char>, limit: nat) -> Seq<char> {
    if v.len() > limit {
        v.take(limit as int).push('…')
    } else {
        v
    }
}

pub fn truncate_chars(value: &str, limit: usize) -> (r: String)
    ensures
        r@ == truncated(value@, limit as nat),
{
    let c = chars_of(value);
    if c.len() > limit {
        let mut r = string_of(c.as_slice(), 0, limit);
        crate::calls::push_char(&mut r, '…');
        r
    } else {
        assert(c@.subrange(0, c@.len() as int) =~= c@);
        string_of(c.as_slice(), 0, c.len())
    }
}

/// The first line of a text as `str::lines` gives it, if it has one.
pub open spec fn first_line(s: Seq<char>) -> Option<Seq<char>> {
    if pieces(s).len() > 0 {
        Some(without_line_break(pieces(s)[0]))
    } else {
        None
    }
}

/// An error message cut to its first line and to 240 characters.
pub open spec fn short_error_of(e: Seq<char>) -> Seq<char> {
    truncated(
        match first_line(e) {
            Some(l) => l,
            None => e,
        },
        240,
    )
}

fn first_line_range(s: &[char]) -> (r: Option<(usize, usize)>)
    ensures
        match r {
            Some((a, b)) => a <= b <= s@.len() && first_line(s@) == Some(s@.subrange(a as int, b as int)),
            None => first_line(s@) is None,
        },
{
    let ranges = line_ranges(s);
    if ranges.len() == 0 {
        return None;
    }
    let (a, b) = ranges[0];
    let ghost p = s@.subrange(a as int, b as int);
    if b > a && s[b - 1] == '\n' {
        assert(p.drop_last() =~= s@.subrange(a as int, b - 1));
        if b - 1 > a && s[b - 2] == '\r' {
            assert(p.drop_last().drop_last() =~= s@.subrange(a as int, b - 2));
            Some((a, b - 2))
        } else {
            Some((a, b - 1))
        }
    } else {
        Some((a, b))
    }
}

pub fn short_error(error: &str) -> (r: String)
    ensures
        r@ == short_error_of(error@),
{
    let c = chars_of(error);
    match first_line_range(c.as_slice()) {
        Some((a, b)) => {
            let line = string_of(c.as_slice(), a, b);
            truncate_chars(line.as_str(), 240)
        },
        None => truncate_chars(error, 240),
    }
}

/// The first non-blank line of a Mermaid source that is not a `%%` comment, trimmed.
pub open spec fn header_from(ls: Seq<Seq<char>>, k: int) -> Seq<char>
    decreases ls.len() - k,
{
    if k < 0 || k >= ls.len() {
        "diagram"@
    } else {
        let t = trim(ls[k]);
        if t.len() > 0 && !(t.len() >= 2 && t[0] == '%' && t[1] == '%') {
            t
        } else {
            header_from(ls, k + 1)
        }
    }
}

/// The accessible name of a diagram: `Mermaid diagram: ` and its header line, cut to 100
/// characters.
pub open spec fn diagram_label_of(source: Seq<char>) -> Seq<char> {
    "Mermaid diagram: "@ + truncated(header_from(pieces(source).map_values(|p: Seq<char>| without_line_break(p)), 0), 100)
}

pub fn diagram_label(source: &str) -> (r: String)
    ensures
        r@ == diagram_label_of(source@),
{
    let c = chars_of(source);
    let ranges = line_ranges(c.as_slice());
    let ghost ls = pieces(c@).map_values(|p: Seq<char>| without_line_break(p));
    let mut k: usize = 0;
    let mut header: Option<String> = None;
    while k < ranges.len() && header.is_none()
        invariant
            ranges@.len() == pieces(c@).len(),
            ls == pieces(c@).map_values(|p: Seq<char>| without_line_break(p)),
            forall|j: int|
                0 <= j < ranges@.len() ==> (#[trigger] ranges@[j]).0 <= ranges@[j].1 <= c@.len() && c@.subrange(
                    ranges@[j].0 as int,
                    ranges@[j].1 as int,
                ) == pieces(c@)[j],
            k <= ranges@.len(),
            match header {
                Some(h) => h@ == header_from(ls, 0),
                None => header_from(ls, 0) == header_from(ls, k as int),
            },
        decreases ranges@.len() - k + (if header is Some { 0int } else { 1int }),
    {
        let (a, b) = ranges[k];
        let line = string_of(c.as_slice(), a, b);
        let lc = chars_of(line.as_str());
        let e = crate::render::cards::end_without_line_break_pub(lc.as_slice(), 0, lc.len());
        assert(lc@.subrange(0, lc@.len() as int) =~= lc@);
        let (x, y) = trim_bounds(lc.as_slice(), 0, e, CharSet::Whitespace);
        proof {
            assert(ls[k as int] == lc@.subrange(0, e as int));
        }
        if y > x && !(y - x >= 2 && lc[x] == '%' && lc[x + 1] == '%') {
            header = Some(string_of(lc.as_slice(), x, y));
        } else {
            k = k + 1;
        }
    }
    let h = match header {
        Some(h) => h,
        None => {
            proof {
                reveal_strlit("diagram");
            }
            String::from_str("diagram")
        },
    };
    let mut r = String::from_str("Mermaid diagram: ");
    let t = truncate_chars(h.as_str(), 100);
    r.append(t.as_str());
    r
}

// ---------------------------------------------------------------- Mermaid fragments

/// The collapsible source listing under a diagram (opened under an error).
pub open spec fn mermaid_source_of(source: Seq<char>, open: bool) -> Seq<char> {
    "<details class=\"diagram-source\""@ + (if open { " open"@ } else { ""@ })
        + "><summary>Mermaid source</summary><pre><code class=\"language-mermaid\">"@ + escaped_text(source)
        + "</code></pre></details>"@
}

pub fn mermaid_source(source: &str, open: bool) -> (r: String)
    ensures
        r@ == mermaid_source_of(source@, open),
{
    let mut r = String::from_str("<details class=\"diagram-source\"");
    r.append(if open { " open" } else { "" });
    r.append("><summary>Mermaid source</summary><pre><code class=\"language-mermaid\">");
    let esc = encode_text(source);
    r.append(esc.as_str());
    r.append("</code></pre></details>");
    r
}

/// A diagram that could not be drawn: the message, then the source, opened.
pub open spec fn mermaid_error_of(source: Seq<char>, message: Seq<char>) -> Seq<char> {
    "<figure class=\"diagram diagram-error\"><figcaption><strong>Mermaid could not render this diagram.</strong><span>"@
        + escaped_text(message) + "</span></figcaption>"@ + mermaid_source_of(source, true) + "</figure>"@
}

pub fn mermaid_error(source: &str, message: &str) -> (r: String)
    ensures
        r@ == mermaid_error_of(source@, message@),
{
    let mut r = String::from_str(
        "<figure class=\"diagram diagram-error\"><figcaption><strong>Mermaid could not render this diagram.</strong><span>",
    );
    let esc = encode_text(message);
    r.append(esc.as_str());
    r.append("</span></figcaption>");
    let src = mermaid_source(source, true);
    r.append(src.as_str());
    r.append("</figure>");
    r
}

/// A drawn diagram: the light and dark SVG as base64 images (the page shows the one for
/// its colour scheme), labelled by the diagram's header, then the source.
pub open spec fn mermaid_figure_of(source: Seq<char>, light: Seq<char>, dark: Seq<char>) -> Seq<char> {
    figure_with_images(source, base64_of(vstd::utf8::encode_utf8(light)), base64_of(vstd::utf8::encode_utf8(dark)))
}

/// The figure of a diagram from the base64 text of its light and dark SVG.
pub open spec fn figure_with_images(source: Seq<char>, light: Seq<char>, dark: Seq<char>) -> Seq<char> {
    "<figure class=\"diagram\"><div class=\"diagram-viewport\" role=\"img\" aria-label=\""@ + escaped_attr(
        diagram_label_of(source),
    ) + "\"><img class=\"diagram-image diagram-image-light\" src=\"data:image/svg+xml;base64,"@ + light
        + "\" alt=\"\" loading=\"lazy\" decoding=\"async\"><img class=\"diagram-image diagram-image-dark\" src=\"data:image/svg+xml;base64,"@
        + dark + "\" alt=\"\" loading=\"lazy\" decoding=\"async\"></div>"@ + mermaid_source_of(source, false)
        + "</figure>"@
}

pub fn mermaid_figure(source: &str, light_svg: &str, dark_svg: &str) -> (r: String)
    ensures
        r@ == mermaid_figure_of(source@, light_svg@, dark_svg@),
{
    let light = base64_encode(light_svg);
    let dark = base64_encode(dark_svg);
    figure_from_images(source, light.as_str(), dark.as_str())
}

/// The figure of a diagram from the base64 text of its SVG (see `figure_with_images`).
pub fn figure_from_images(source: &str, light: &str, dark: &str) -> (r: String)
    ensures
        r@ == figure_with_images(source@, light@, dark@),
{
    let label = diagram_label(source);
    let attr = encode_attribute(label.as_str());
    let mut r = String::from_str("<figure class=\"diagram\"><div class=\"diagram-viewport\" role=\"img\" aria-label=\"");
    r.append(attr.as_str());
    r.append("\"><img class=\"diagram-image diagram-image-light\" src=\"data:image/svg+xml;base64,");
    r.append(light);
    r.append(
        "\" alt=\"\" loading=\"lazy\" decoding=\"async\"><img class=\"diagram-image diagram-image-dark\" src=\"data:image/svg+xml;base64,",
    );
    r.append(dark);
    r.append("\" alt=\"\" loading=\"lazy\" decoding=\"async\"></div>");
    let src = mermaid_source(source, false);
    r.append(src.as_str());
    r.append("</figure>");
    r
}

/// The largest Mermaid source that is drawn, in bytes.
pub const MAX_MERMAID_SOURCE_BYTES: usize = 262144;

/// The figure for a Mermaid block that is not drawn at all: an empty source, or one over
/// the size limit.
pub open spec fn mermaid_refusal(source: Seq<char>, bytes: nat) -> Option<Seq<char>> {
    if trim(source).len() == 0 {
        Some(mermaid_error_of(source, "The Mermaid block is empty."@))
    } else if bytes > MAX_MERMAID_SOURCE_BYTES {
        Some(mermaid_error_of(source, "This Mermaid block is larger than the 256 KiB rendering limit."@))
    } else {
        None
    }
}

pub fn mermaid_precheck(source: &str) -> (r: Option<String>)
    ensures
        crate::tunnel::text_of(r) == mermaid_refusal(source@, source.spec_bytes().len()),
{
    let c = chars_of(source);
    let (a, b) = trim_bounds(c.as_slice(), 0, c.len(), CharSet::Whitespace);
    assert(c@.subrange(0, c@.len() as int) =~= c@);
    if a == b {
        return Some(mermaid_error(source, "The Mermaid block is empty."));
    }
    let raw = source.as_bytes();
    let bytes = raw.len();
    if bytes > MAX_MERMAID_SOURCE_BYTES {
        return Some(mermaid_error(source, "This Mermaid block is larger than the 256 KiB rendering limit."));
    }
    None
}

/// The figure for a Mermaid block from what the renderer made of it in the light and the
/// dark theme: both drawings, the one that worked for both schemes, or the light theme's
/// error (first line, at most 240 characters).
pub open spec fn mermaid_outcome(source: Seq<char>, light: Result<Seq<char>, Seq<char>>, dark: Result<Seq<char>, Seq<char>>) -> Seq<char> {
    match (light, dark) {
        (Ok(l), Ok(d)) => mermaid_figure_of(source, l, d),
        (Ok(l), Err(_)) => mermaid_figure_of(source, l, l),
        (Err(_), Ok(d)) => mermaid_figure_of(source, d, d),
        (Err(e), Err(_)) => mermaid_error_of(source, short_error_of(e)),
    }
}

pub open spec fn outcome_view(r: Result<String, String>) -> Result<Seq<char>, Seq<char>> {
    match r {
        Ok(s) => Ok(s@),
        Err(e) => Err(e@),
    }
}

/// The figure for a Mermaid block (see `mermaid_outcome`), from the renderer's results.
pub fn mermaid_html(source: &str, light: Result<String, String>, dark: Result<String, String>) -> (r: String)
    ensures
        r@ == mermaid_outcome(source@, outcome_view(light), outcome_view(dark)),
{
    match (light, dark) {
        (Ok(l), Ok(d)) => mermaid_figure(source, l.as_str(), d.as_str()),
        (Ok(l), Err(_)) => mermaid_figure(source, l.as_str(), l.as_str()),
        (Err(_), Ok(d)) => mermaid_figure(source, d.as_str(), d.as_str()),
        (Err(e), Err(_)) => {
            let short = short_error(e.as_str());
            mermaid_error(source, short.as_str())
        },
    }
}

// ---------------------------------------------------------------- math

/// The MathML elements kept in rendered formulas.
pub open spec fn mathml_tags() -> Seq<Seq<char>> {
    seq![
        "annotation"@,
        "maction"@,
        "math"@,
        "menclose"@,
        "merror"@,
        "mfrac"@,
        "mi"@,
        "mlabeledtr"@,
        "mmultiscripts"@,
        "mn"@,
        "mo"@,
        "mover"@,
        "mpadded"@,
        "mphantom"@,
        "mprescripts"@,
        "mroot"@,
        "mrow"@,
        "ms"@,
        "mspace"@,
        "msqrt"@,
        "mstyle"@,
        "msub"@,
        "msubsup"@,
        "msup"@,
        "mtable"@,
        "mtd"@,
        "mtext"@,
        "mtr"@,
        "munder"@,
        "munderover"@,
        "none"@,
        "semantics"@,
    ]
}

/// The attributes kept on MathML elements.
pub open spec fn mathml_attributes() -> Seq<Seq<char>> {
    seq![
        "accent"@,
        "accentunder"@,
        "class"@,
        "close"@,
        "columnalign"@,
        "columnlines"@,
        "columnspacing"@,
        "columnspan"@,
        "columnwidth"@,
        "depth"@,
        "dir"@,
        "display"@,
        "displaystyle"@,
        "encoding"@,
        "fence"@,
        "form"@,
        "frame"@,
        "framespacing"@,
        "height"@,
        "largeop"@,
        "linethickness"@,
        "lspace"@,
        "mathbackground"@,
        "mathcolor"@,
        "mathsize"@,
        "mathvariant"@,
        "maxsize"@,
        "minsize"@,
        "movablelimits"@,
        "notation"@,
        "numalign"@,
        "open"@,
        "overflow"@,
        "rowalign"@,
        "rowlines"@,
        "rowspacing"@,
        "rowspan"@,
        "rspace"@,
        "scriptlevel"@,
        "scriptminsize"@,
        "scriptsizemultiplier"@,
        "selection"@,
        "separator"@,
        "separators"@,
        "stretchy"@,
        "symmetric"@,
        "width"@,
        "xmlns"@,
    ]
}

fn mathml_tag_list() -> (v: Vec<String>)
    ensures
        string_views(v@) == mathml_tags(),
{
    let mut v: Vec<String> = Vec::new();
    v.push(String::from_str("annotation"));
    v.push(String::from_str("maction"));
    v.push(String::from_str("math"));
    v.push(String::from_str("menclose"));
    v.push(String::from_str("merror"));
    v.push(String::from_str("mfrac"));
    v.push(String::from_str("mi"));
    v.push(String::from_str("mlabeledtr"));
    v.push(String::from_str("mmultiscripts"));
    v.push(String::from_str("mn"));
    v.push(String::from_str("mo"));
    v.push(String::from_str("mover"));
    v.push(String::from_str("mpadded"));
    v.push(String::from_str("mphantom"));
    v.push(String::from_str("mprescripts"));
    v.push(String::from_str("mroot"));
    v.push(String::from_str("mrow"));
    v.push(String::from_str("ms"));
    v.push(String::from_str("mspace"));
    v.push(String::from_str("msqrt"));
    v.push(String::from_str("mstyle"));
    v.push(String::from_str("msub"));
    v.push(String::from_str("msubsup"));
    v.push(String::from_str("msup"));
    v.push(String::from_str("mtable"));
    v.push(String::from_str("mtd"));
    v.push(String::from_str("mtext"));
    v.push(String::from_str("mtr"));
    v.push(String::from_str("munder"));
    v.push(String::from_str("munderover"));
    v.push(String::from_str("none"));
    v.push(String::from_str("semantics"));
    assert(string_views(v@) =~= mathml_tags());
    v
}

fn mathml_attribute_list() -> (v: Vec<String>)
    ensures
        string_views(v@) == mathml_attributes(),
{
    let mut v: Vec<String> = Vec::new();
    v.push(String::from_str("accent"));
    v.push(String::from_str("accentunder"));
    v.push(String::from_str("class"));
    v.push(String::from_str("close"));
    v.push(String::from_str("columnalign"));
    v.push(String::from_str("columnlines"));
    v.push(String::from_str("columnspacing"));
    v.push(String::from_str("columnspan"));
    v.push(String::from_str("columnwidth"));
    v.push(String::from_str("depth"));
    v.push(String::from_str("dir"));
    v.push(String::from_str("display"));
    v.push(String::from_str("displaystyle"));
    v.push(String::from_str("encoding"));
    v.push(String::from_str("fence"));
    v.push(String::from_str("form"));
    v.push(String::from_str("frame"));
    v.push(String::from_str("framespacing"));
    v.push(String::from_str("height"));
    v.push(String::from_str("largeop"));
    v.push(String::from_str("linethickness"));
    v.push(String::from_str("lspace"));
    v.push(String::from_str("mathbackground"));
    v.push(String::from_str("mathcolor"));
    v.push(String::from_str("mathsize"));
    v.push(String::from_str("mathvariant"));
    v.push(String::from_str("maxsize"));
    v.push(String::from_str("minsize"));
    v.push(String::from_str("movablelimits"));
    v.push(String::from_str("notation"));
    v.push(String::from_str("numalign"));
    v.push(String::from_str("open"));
    v.push(String::from_str("overflow"));
    v.push(String::from_str("rowalign"));
    v.push(String::from_str("rowlines"));
    v.push(String::from_str("rowspacing"));
    v.push(String::from_str("rowspan"));
    v.push(String::from_str("rspace"));
    v.push(String::from_str("scriptlevel"));
    v.push(String::from_str("scriptminsize"));
    v.push(String::from_str("scriptsizemultiplier"));
    v.push(String::from_str("selection"));
    v.push(String::from_str("separator"));
    v.push(String::from_str("separators"));
    v.push(String::from_str("stretchy"));
    v.push(String::from_str("symmetric"));
    v.push(String::from_str("width"));
    v.push(String::from_str("xmlns"));
    assert(string_views(v@) =~= mathml_attributes());
    v
}

/// MathML as the sanitiser leaves it: only MathML presentation elements and their
/// attributes survive.
pub open spec fn sanitized_mathml(mathml: Seq<char>) -> Seq<char> {
    cleaned_strict(mathml_tags(), mathml_attributes(), mathml)
}

/// The MathML allow-lists are ones `ammonia` accepts: no tag whose content it drops, and
/// no `rel` attribute.
proof fn lemma_mathml_lists_accepted()
    ensures
        allowed_tags_accepted(mathml_tags()),
        attributes_accepted(mathml_attributes()),
{
    reveal_strlit("script");
    reveal_strlit("style");
    reveal_strlit("rel");
    reveal_strlit("annotation");
    reveal_strlit("maction");
    reveal_strlit("math");
    reveal_strlit("menclose");
    reveal_strlit("merror");
    reveal_strlit("mfrac");
    reveal_strlit("mi");
    reveal_strlit("mlabeledtr");
    reveal_strlit("mmultiscripts");
    reveal_strlit("mn");
    reveal_strlit("mo");
    reveal_strlit("mover");
    reveal_strlit("mpadded");
    reveal_strlit("mphantom");
    reveal_strlit("mprescripts");
    reveal_strlit("mroot");
    reveal_strlit("mrow");
    reveal_strlit("ms");
    reveal_strlit("mspace");
    reveal_strlit("msqrt");
    reveal_strlit("mstyle");
    reveal_strlit("msub");
    reveal_strlit("msubsup");
    reveal_strlit("msup");
    reveal_strlit("mtable");
    reveal_strlit("mtd");
    reveal_strlit("mtext");
    reveal_strlit("mtr");
    reveal_strlit("munder");
    reveal_strlit("munderover");
    reveal_strlit("none");
    reveal_strlit("semantics");
    reveal_strlit("accent");
    reveal_strlit("accentunder");
    reveal_strlit("class");
    reveal_strlit("close");
    reveal_strlit("columnalign");
    reveal_strlit("columnlines");
    reveal_strlit("columnspacing");
    reveal_strlit("columnspan");
    reveal_strlit("columnwidth");
    reveal_strlit("depth");
    reveal_strlit("dir");
    reveal_strlit("display");
    reveal_strlit("displaystyle");
    reveal_strlit("encoding");
    reveal_strlit("fence");
    reveal_strlit("form");
    reveal_strlit("frame");
    reveal_strlit("framespacing");
    reveal_strlit("height");
    reveal_strlit("largeop");
    reveal_strlit("linethickness");
    reveal_strlit("lspace");
    reveal_strlit("mathbackground");
    reveal_strlit("mathcolor");
    reveal_strlit("mathsize");
    reveal_strlit("mathvariant");
    reveal_strlit("maxsize");
    reveal_strlit("minsize");
    reveal_strlit("movablelimits");
    reveal_strlit("notation");
    reveal_strlit("numalign");
    reveal_strlit("open");
    reveal_strlit("overflow");
    reveal_strlit("rowalign");
    reveal_strlit("rowlines");
    reveal_strlit("rowspacing");
    reveal_strlit("rowspan");
    reveal_strlit("rspace");
    reveal_strlit("scriptlevel");
    reveal_strlit("scriptminsize");
    reveal_strlit("scriptsizemultiplier");
    reveal_strlit("selection");
    reveal_strlit("separator");
    reveal_strlit("separators");
    reveal_strlit("stretchy");
    reveal_strlit("symmetric");
    reveal_strlit("width");
    reveal_strlit("xmlns");
    let t = mathml_tags();
    assert(t[0] == "annotation"@);
    assert(t[0].len() != 6 || t[0][0] != 's');
    assert(t[0].len() != 5 || t[0][0] != 's');
    assert(t[1] == "maction"@);
    assert(t[1].len() != 6 || t[1][0] != 's');
    assert(t[1].len() != 5 || t[1][0] != 's');
    assert(t[2] == "math"@);
    assert(t[2].len() != 6 || t[2][0] != 's');
    assert(t[2].len() != 5 || t[2][0] != 's');
    assert(t[3] == "menclose"@);
    assert(t[3].len() != 6 || t[3][0] != 's');
    assert(t[3].len() != 5 || t[3][0] != 's');
    assert(t[4] == "merror"@);
    assert(t[4].len() != 6 || t[4][0] != 's');
    assert(t[4].len() != 5 || t[4][0] != 's');
    assert(t[5] == "mfrac"@);
    assert(t[5].len() != 6 || t[5][0] != 's');
    assert(t[5].len() != 5 || t[5][0] != 's');
    assert(t[6] == "mi"@);
    assert(t[6].len() != 6 || t[6][0] != 's');
    assert(t[6].len() != 5 || t[6][0] != 's');
    assert(t[7] == "mlabeledtr"@);
    assert(t[7].len() != 6 || t[7][0] != 's');
    assert(t[7].len() != 5 || t[7][0] != 's');
    assert(t[8] == "mmultiscripts"@);
    assert(t[8].len() != 6 || t[8][0] != 's');
    assert(t[8].len() != 5 || t[8][0] != 's');
    assert(t[9] == "mn"@);
    assert(t[9].len() != 6 || t[9][0] != 's');
    assert(t[9].len() != 5 || t[9][0] != 's');
    assert(t[10] == "mo"@);
    assert(t[10].len() != 6 || t[10][0] != 's');
    assert(t[10].len() != 5 || t[10][0] != 's');
    assert(t[11] == "mover"@);
    assert(t[11].len() != 6 || t[11][0] != 's');
    assert(t[11].len() != 5 || t[11][0] != 's');
    assert(t[12] == "mpadded"@);
    assert(t[12].len() != 6 || t[12][0] != 's');
    assert(t[12].len() != 5 || t[12][0] != 's');
    assert(t[13] == "mphantom"@);
    assert(t[13].len() != 6 || t[13][0] != 's');
    assert(t[13].len() != 5 || t[13][0] != 's');
    assert(t[14] == "mprescripts"@);
    assert(t[14].len() != 6 || t[14][0] != 's');
    assert(t[14].len() != 5 || t[14][0] != 's');
    assert(t[15] == "mroot"@);
    assert(t[15].len() != 6 || t[15][0] != 's');
    assert(t[15].len() != 5 || t[15][0] != 's');
    assert(t[16] == "mrow"@);
    assert(t[16].len() != 6 || t[16][0] != 's');
    assert(t[16].len() != 5 || t[16][0] != 's');
    assert(t[17] == "ms"@);
    assert(t[17].len() != 6 || t[17][0] != 's');
    assert(t[17].len() != 5 || t[17][0] != 's');
    assert(t[18] == "mspace"@);
    assert(t[18].len() != 6 || t[18][0] != 's');
    assert(t[18].len() != 5 || t[18][0] != 's');
    assert(t[19] == "msqrt"@);
    assert(t[19].len() != 6 || t[19][0] != 's');
    assert(t[19].len() != 5 || t[19][0] != 's');
    assert(t[20] == "mstyle"@);
    assert(t[20].len() != 6 || t[20][0] != 's');
    assert(t[20].len() != 5 || t[20][0] != 's');
    assert(t[21] == "msub"@);
    assert(t[21].len() != 6 || t[21][0] != 's');
    assert(t[21].len() != 5 || t[21][0] != 's');
    assert(t[22] == "msubsup"@);
    assert(t[22].len() != 6 || t[22][0] != 's');
    assert(t[22].len() != 5 || t[22][0] != 's');
    assert(t[23] == "msup"@);
    assert(t[23].len() != 6 || t[23][0] != 's');
    assert(t[23].len() != 5 || t[23][0] != 's');
    assert(t[24] == "mtable"@);
    assert(t[24].len() != 6 || t[24][0] != 's');
    assert(t[24].len() != 5 || t[24][0] != 's');
    assert(t[25] == "mtd"@);
    assert(t[25].len() != 6 || t[25][0] != 's');
    assert(t[25].len() != 5 || t[25][0] != 's');
    assert(t[26] == "mtext"@);
    assert(t[26].len() != 6 || t[26][0] != 's');
    assert(t[26].len() != 5 || t[26][0] != 's');
    assert(t[27] == "mtr"@);
    assert(t[27].len() != 6 || t[27][0] != 's');
    assert(t[27].len() != 5 || t[27][0] != 's');
    assert(t[28] == "munder"@);
    assert(t[28].len() != 6 || t[28][0] != 's');
    assert(t[28].len() != 5 || t[28][0] != 's');
    assert(t[29] == "munderover"@);
    assert(t[29].len() != 6 || t[29][0] != 's');
    assert(t[29].len() != 5 || t[29][0] != 's');
    assert(t[30] == "none"@);
    assert(t[30].len() != 6 || t[30][0] != 's');
    assert(t[30].len() != 5 || t[30][0] != 's');
    assert(t[31] == "semantics"@);
    assert(t[31].len() != 6 || t[31][0] != 's');
    assert(t[31].len() != 5 || t[31][0] != 's');
    assert forall|i: int| 0 <= i < t.len() implies !clean_content_tag(#[trigger] t[i]) by {
        assert(i == 0 || i == 1 || i == 2 || i == 3 || i == 4 || i == 5 || i == 6 || i == 7 || i == 8 || i == 9 || i == 10 || i == 11 || i == 12 || i == 13 || i == 14 || i == 15 || i == 16 || i == 17 || i == 18 || i == 19 || i == 20 || i == 21 || i == 22 || i == 23 || i == 24 || i == 25 || i == 26 || i == 27 || i == 28 || i == 29 || i == 30 || i == 31);
    }
    let a = mathml_attributes();
    assert(a[0] == "accent"@);
    assert(a[0].len() != 3 || a[0][0] != 'r');
    assert(a[1] == "accentunder"@);
    assert(a[1].len() != 3 || a[1][0] != 'r');
    assert(a[2] == "class"@);
    assert(a[2].len() != 3 || a[2][0] != 'r');
    assert(a[3] == "close"@);
    assert(a[3].len() != 3 || a[3][0] != 'r');
    assert(a[4] == "columnalign"@);
    assert(a[4].len() != 3 || a[4][0] != 'r');
    assert(a[5] == "columnlines"@);
    assert(a[5].len() != 3 || a[5][0] != 'r');
    assert(a[6] == "columnspacing"@);
    assert(a[6].len() != 3 || a[6][0] != 'r');
    assert(a[7] == "columnspan"@);
    assert(a[7].len() != 3 || a[7][0] != 'r');
    assert(a[8] == "columnwidth"@);
    assert(a[8].len() != 3 || a[8][0] != 'r');
    assert(a[9] == "depth"@);
    assert(a[9].len() != 3 || a[9][0] != 'r');
    assert(a[10] == "dir"@);
    assert(a[10].len() != 3 || a[10][0] != 'r');
    assert(a[11] == "display"@);
    assert(a[11].len() != 3 || a[11][0] != 'r');
    assert(a[12] == "displaystyle"@);
    assert(a[12].len() != 3 || a[12][0] != 'r');
    assert(a[13] == "encoding"@);
    assert(a[13].len() != 3 || a[13][0] != 'r');
    assert(a[14] == "fence"@);
    assert(a[14].len() != 3 || a[14][0] != 'r');
    assert(a[15] == "form"@);
    assert(a[15].len() != 3 || a[15][0] != 'r');
    assert(a[16] == "frame"@);
    assert(a[16].len() != 3 || a[16][0] != 'r');
    assert(a[17] == "framespacing"@);
    assert(a[17].len() != 3 || a[17][0] != 'r');
    assert(a[18] == "height"@);
    assert(a[18].len() != 3 || a[18][0] != 'r');
    assert(a[19] == "largeop"@);
    assert(a[19].len() != 3 || a[19][0] != 'r');
    assert(a[20] == "linethickness"@);
    assert(a[20].len() != 3 || a[20][0] != 'r');
    assert(a[21] == "lspace"@);
    assert(a[21].len() != 3 || a[21][0] != 'r');
    assert(a[22] == "mathbackground"@);
    assert(a[22].len() != 3 || a[22][0] != 'r');
    assert(a[23] == "mathcolor"@);
    assert(a[23].len() != 3 || a[23][0] != 'r');
    assert(a[24] == "mathsize"@);
    assert(a[24].len() != 3 || a[24][0] != 'r');
    assert(a[25] == "mathvariant"@);
    assert(a[25].len() != 3 || a[25][0] != 'r');
    assert(a[26] == "maxsize"@);
    assert(a[26].len() != 3 || a[26][0] != 'r');
    assert(a[27] == "minsize"@);
    assert(a[27].len() != 3 || a[27][0] != 'r');
    assert(a[28] == "movablelimits"@);
    assert(a[28].len() != 3 || a[28][0] != 'r');
    assert(a[29] == "notation"@);
    assert(a[29].len() != 3 || a[29][0] != 'r');
    assert(a[30] == "numalign"@);
    assert(a[30].len() != 3 || a[30][0] != 'r');
    assert(a[31] == "open"@);
    assert(a[31].len() != 3 || a[31][0] != 'r');
    assert(a[32] == "overflow"@);
    assert(a[32].len() != 3 || a[32][0] != 'r');
    assert(a[33] == "rowalign"@);
    assert(a[33].len() != 3 || a[33][0] != 'r');
    assert(a[34] == "rowlines"@);
    assert(a[34].len() != 3 || a[34][0] != 'r');
    assert(a[35] == "rowspacing"@);
    assert(a[35].len() != 3 || a[35][0] != 'r');
    assert(a[36] == "rowspan"@);
    assert(a[36].len() != 3 || a[36][0] != 'r');
    assert(a[37] == "rspace"@);
    assert(a[37].len() != 3 || a[37][0] != 'r');
    assert(a[38] == "scriptlevel"@);
    assert(a[38].len() != 3 || a[38][0] != 'r');
    assert(a[39] == "scriptminsize"@);
    assert(a[39].len() != 3 || a[39][0] != 'r');
    assert(a[40] == "scriptsizemultiplier"@);
    assert(a[40].len() != 3 || a[40][0] != 'r');
    assert(a[41] == "selection"@);
    assert(a[41].len() != 3 || a[41][0] != 'r');
    assert(a[42] == "separator"@);
    assert(a[42].len() != 3 || a[42][0] != 'r');
    assert(a[43] == "separators"@);
    assert(a[43].len() != 3 || a[43][0] != 'r');
    assert(a[44] == "stretchy"@);
    assert(a[44].len() != 3 || a[44][0] != 'r');
    assert(a[45] == "symmetric"@);
    assert(a[45].len() != 3 || a[45][0] != 'r');
    assert(a[46] == "width"@);
    assert(a[46].len() != 3 || a[46][0] != 'r');
    assert(a[47] == "xmlns"@);
    assert(a[47].len() != 3 || a[47][0] != 'r');
    assert forall|i: int| 0 <= i < a.len() implies #[trigger] a[i] != "rel"@ by {
        assert(i == 0 || i == 1 || i == 2 || i == 3 || i == 4 || i == 5 || i == 6 || i == 7 || i == 8 || i == 9 || i == 10 || i == 11 || i == 12 || i == 13 || i == 14 || i == 15 || i == 16 || i == 17 || i == 18 || i == 19 || i == 20 || i == 21 || i == 22 || i == 23 || i == 24 || i == 25 || i == 26 || i == 27 || i == 28 || i == 29 || i == 30 || i == 31 || i == 32 || i == 33 || i == 34 || i == 35 || i == 36 || i == 37 || i == 38 || i == 39 || i == 40 || i == 41 || i == 42 || i == 43 || i == 44 || i == 45 || i == 46 || i == 47);
    }
}

pub fn sanitize_mathml(mathml: &str) -> (r: String)
    ensures
        r@ == sanitized_mathml(mathml@),
{
    let tags = mathml_tag_list();
    let attributes = mathml_attribute_list();
    proof {
        lemma_mathml_lists_accepted();
    }
    clean_strict(&tags, &attributes, mathml)
}

/// The TeX source kept visible when a formula cannot be rendered, with the reason as its
/// tooltip.
pub open spec fn math_fallback_of(source: Seq<char>, display: bool, message: Seq<char>) -> Seq<char> {
    let delimiter = if display { "$$"@ } else { "$"@ };
    "<span class=\"math-error\" title=\""@ + escaped_attr(message) + "\"><code>"@ + delimiter + escaped_text(source)
        + delimiter + "</code></span>"@
}

pub fn math_fallback(source: &str, display: bool, message: &str) -> (r: String)
    ensures
        r@ == math_fallback_of(source@, display, message@),
{
    let delimiter = if display { "$$" } else { "$" };
    let mut r = String::from_str("<span class=\"math-error\" title=\"");
    let m = encode_attribute(message);
    r.append(m.as_str());
    r.append("\"><code>");
    r.append(delimiter);
    let t = encode_text(source);
    r.append(t.as_str());
    r.append(delimiter);
    r.append("</code></span>");
    r
}

/// A formula from the MathML the TeX renderer made of it (none when it failed): the
/// sanitised MathML in an inline or display span when a `<math` element survives, else the
/// source as a fallback.
pub open spec fn math_outcome(source: Seq<char>, display: bool, mathml: Option<Seq<char>>) -> Seq<char> {
    math_span_of(
        source,
        display,
        match mathml {
            Some(m) => Some(sanitized_mathml(m)),
            None => None,
        },
    )
}

/// A formula from its sanitised MathML (none when rendering failed): the MathML in an
/// inline or display span when it holds a `<math` element, else the source as a fallback.
pub open spec fn math_span_of(source: Seq<char>, display: bool, sanitized: Option<Seq<char>>) -> Seq<char> {
    match sanitized {
        Some(s) => {
            if crate::tui::contains_seq(s, "<math"@) {
                "<span class=\""@ + (if display { "math-display"@ } else { "math-inline"@ }) + "\">"@ + s + "</span>"@
            } else {
                math_fallback_of(source, display, "The formula could not be rendered."@)
            }
        },
        None => math_fallback_of(source, display, "The formula could not be rendered."@),
    }
}

/// The formula for `source` from its sanitised MathML (see `math_span_of`).
pub fn math_span(source: &str, display: bool, sanitized: Option<String>) -> (r: String)
    ensures
        r@ == math_span_of(source@, display, crate::tunnel::text_of(sanitized)),
{
    match sanitized {
        Some(s) => {
            let sc = chars_of(s.as_str());
            let probe = chars_of("<math");
            if crate::tui::contains_chars(sc.as_slice(), probe.as_slice()) {
                let mut r = String::from_str("<span class=\"");
                r.append(if display { "math-display" } else { "math-inline" });
                r.append("\">");
                r.append(s.as_str());
                r.append("</span>");
                r
            } else {
                math_fallback(source, display, "The formula could not be rendered.")
            }
        },
        None => math_fallback(source, display, "The formula could not be rendered."),
    }
}

/// The formula for `source` from the MathML the TeX renderer made of it (see
/// `math_outcome`).
pub fn math_html(source: &str, display: bool, mathml: Option<String>) -> (r: String)
    ensures
        r@ == math_outcome(source@, display, crate::tunnel::text_of(mathml)),
{
    let sanitized = match mathml {
        Some(m) => Some(sanitize_mathml(m.as_str())),
        None => None,
    };
    math_span(source, display, sanitized)
}

} // verus!
