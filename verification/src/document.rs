//! Markdown documents: recognition, frontmatter, titles and web routes.

use vstd::prelude::*;
use vstd::utf8::{encode_utf8, is_ascii_chars};
use crate::calls::{form_byte, form_encoded, form_unchanged, form_urlencode, hex_digit, hex_upper, percent_decoded,
    push_char};
use crate::paths::{components, component_ranges, extension_of, extension_range, file_name,
    file_name_range, ranges_text, stem_of, stem_range};
use crate::text::{ascii_lower, chars_of, find_char, find_from, lemma_find_from_bounds,
    lower_ascii_range, push_range, range_is, same_chars, skip_set, skip_set_back, string_of,
    trim, trim_bounds, trim_by, trim_end_by, trim_start_by, CharSet};

verus! {

/// A modification time: whole seconds and nanoseconds since the Unix epoch.
#[derive(Clone, Copy, Debug, PartialEq, Eq, Structural)]
pub struct Timestamp {
    pub secs: u64,
    pub nanos: u32,
}

/// A Markdown file found below a documentation root.
#[derive(Clone, Debug)]
pub struct Document {
    /// The path the file was read from.
    pub absolute_path: String,
    /// The path below the root, components joined by `/`.
    pub relative_path: String,
    pub title: String,
    pub modified: Timestamp,
    pub size: u64,
}

// ---------------------------------------------------------------- frontmatter

pub open spec fn without_bom(s: Seq<char>) -> Seq<char> {
    if s.len() > 0 && s[0] == '\u{feff}' {
        s.drop_first()
    } else {
        s
    }
}

pub open spec fn fence_line() -> Seq<char> {
    seq!['-', '-', '-']
}

/// End (just past its newline, or the end of the text) of the line that starts at `i`.
pub open spec fn line_end(s: Seq<char>, i: int) -> int {
    let n = find_from(s, '\n', i);
    if n < s.len() {
        n + 1
    } else {
        s.len() as int
    }
}

/// End of the first line at or after `i` that reads `---` once its line break is trimmed.
pub open spec fn closing_fence_end(s: Seq<char>, i: int) -> Option<int>
    decreases s.len() - i,
{
    if i < 0 || i >= s.len() {
        None
    } else {
        let e = line_end(s, i);
        proof {
            lemma_find_from_bounds(s, '\n', i);
        }
        if trim_end_by(s.subrange(i, e), CharSet::CrLf) == fence_line() {
            Some(e)
        } else {
            closing_fence_end(s, e)
        }
    }
}

/// The text without a leading byte-order mark and without a `---` frontmatter block that
/// opens on its first line and closes on a later `---` line.
pub open spec fn stripped_frontmatter(input: Seq<char>) -> Seq<char> {
    let n = without_bom(input);
    let f = find_from(n, '\n', 0);
    if f >= n.len() || trim_end_by(n.take(f), CharSet::Cr) != fence_line() {
        n
    } else {
        match closing_fence_end(n, f + 1) {
            Some(e) => n.skip(e),
            None => n,
        }
    }
}

proof fn lemma_closing_fence_end_bounds(s: Seq<char>, i: int)
    ensures
        closing_fence_end(s, i) matches Some(e) ==> 0 <= i < e <= s.len(),
    decreases s.len() - i,
{
    if 0 <= i < s.len() {
        lemma_find_from_bounds(s, '\n', i);
        let e = line_end(s, i);
        if trim_end_by(s.subrange(i, e), CharSet::CrLf) != fence_line() {
            lemma_closing_fence_end_bounds(s, e);
        }
    }
}

/// Stripping frontmatter never loses the body: what is left is a suffix of the text
/// without its byte-order mark. It is that whole text, unless the first line reads `---`
/// and a later line closes the block, in which case it is what follows the first closing
/// line.
pub proof fn lemma_frontmatter_leaves_a_suffix(input: Seq<char>)
    ensures
        stripped_frontmatter(input).len() <= without_bom(input).len(),
        stripped_frontmatter(input) == without_bom(input).skip(
            without_bom(input).len() - stripped_frontmatter(input).len(),
        ),
        stripped_frontmatter(input) != without_bom(input) ==> ({
            let s = without_bom(input);
            let f: int = find_from(s, '\n', 0);
            &&& f < s.len()
            &&& trim_end_by(s.take(f), CharSet::Cr) == fence_line()
            &&& closing_fence_end(s, f + 1) == Some(s.len() - stripped_frontmatter(input).len())
        }),
{
    let s = without_bom(input);
    let f: int = find_from(s, '\n', 0);
    lemma_find_from_bounds(s, '\n', 0);
    if f < s.len() && trim_end_by(s.take(f), CharSet::Cr) == fence_line() {
        lemma_closing_fence_end_bounds(s, f + 1);
        match closing_fence_end(s, f + 1) {
            Some(e) => {
                assert(s.skip(e).len() == s.len() - e);
                assert(s.len() - (s.len() - e) == e);
            },
            None => {
                assert(s.skip(0) =~= s);
            },
        }
    } else {
        assert(s.skip(0) =~= s);
    }
}

/// Removes a leading byte-order mark and a YAML frontmatter block that opens on the
/// first line with `---` and closes on the next line that reads `---`.
pub fn strip_frontmatter(input: &str) -> (r: String)
    ensures
        r@ == stripped_frontmatter(input@),
{
    let mut n = chars_of(input);
    if n.len() > 0 && n[0] == '\u{feff}' {
        n.remove(0);
        assert(n@ == input@.drop_first());
    }
    proof {
        assert(without_bom(input@) == n@);
        assert(without_bom(n@) == n@ || without_bom(n@) != n@);
    }
    let ghost m = n@;
    let len = n.len();
    proof { lemma_find_from_bounds(m, '\n', 0); }
    let f = find_char(n.as_slice(), '\n', 0);
    if f >= len {
        return string_of(n.as_slice(), 0, len);
    }
    let b = skip_set_back(n.as_slice(), 0, f, CharSet::Cr);
    let fence = ['-', '-', '-'];
    proof {
        assert(fence@ == fence_line());
        assert(trim_end_by(m.take(f as int), CharSet::Cr) =~= m.subrange(0, b as int));
    }
    if !range_is(n.as_slice(), 0, b, &fence) {
        return string_of(n.as_slice(), 0, len);
    }
    let mut i = f + 1;
    while i < len
        invariant
            len == n@.len(),
            m == n@,
            f < len,
            f + 1 <= i <= len,
            fence@ == fence_line(),
            without_bom(input@) == m,
            find_from(m, '\n', 0) == f,
            trim_end_by(m.take(f as int), CharSet::Cr) == fence_line(),
            closing_fence_end(m, f + 1) == closing_fence_end(m, i as int),
        decreases len - i,
    {
        proof { lemma_find_from_bounds(m, '\n', i as int); }
        let nl = find_char(n.as_slice(), '\n', i);
        let e = if nl < len { nl + 1 } else { len };
        let b = skip_set_back(n.as_slice(), i, e, CharSet::CrLf);
        proof {
            assert(trim_end_by(m.subrange(i as int, e as int), CharSet::CrLf) =~= m.subrange(
                i as int,
                b as int,
            ));
        }
        if range_is(n.as_slice(), i, b, &fence) {
            proof {
                assert(e as int == line_end(m, i as int));
                assert(closing_fence_end(m, i as int) == Some(e as int));
                assert(m.skip(e as int) =~= m.subrange(e as int, len as int));
                assert(without_bom(input@) == m);
                assert(find_from(m, '\n', 0) == f);
                assert(trim_end_by(m.take(f as int), CharSet::Cr) == fence_line());
                assert(closing_fence_end(m, f + 1) == Some(e as int));
                assert(stripped_frontmatter(input@) == m.skip(e as int));
            }
            return string_of(n.as_slice(), e, len);
        }
        i = e;
    }
    string_of(n.as_slice(), 0, len)
}

} // verus!

verus! {

// ---------------------------------------------------------------- titles

/// The heading text of one line, when the line is an ATX-style heading with content.
pub open spec fn line_title(l: Seq<char>) -> Option<Seq<char>> {
    let t = trim(l);
    if t.len() > 0 && t[0] == '#' {
        let h = trim(trim_start_by(t.drop_first(), CharSet::Hash));
        if h.len() > 0 {
            Some(trim(trim_end_by(h, CharSet::Hash)))
        } else {
            None
        }
    } else {
        None
    }
}

/// The first heading title among the lines of `s` that start at or after `i`.
pub open spec fn title_from(s: Seq<char>, i: int) -> Option<Seq<char>>
    decreases s.len() - i + 1,
{
    if i < 0 || i > s.len() {
        None
    } else {
        let e = find_from(s, '\n', i);
        proof {
            lemma_find_from_bounds(s, '\n', i);
        }
        match line_title(s.subrange(i, e)) {
            Some(t) => Some(t),
            None => if e < s.len() {
                title_from(s, e + 1)
            } else {
                None
            },
        }
    }
}

/// The title of a Markdown text: the first heading after the frontmatter.
pub open spec fn markdown_title(input: Seq<char>) -> Option<Seq<char>> {
    title_from(stripped_frontmatter(input), 0)
}

fn title_of_line(s: &[char], from: usize, to: usize) -> (r: Option<String>)
    requires
        from <= to <= s@.len(),
    ensures
        match r {
            Some(t) => line_title(s@.subrange(from as int, to as int)) == Some(t@),
            None => line_title(s@.subrange(from as int, to as int)) is None,
        },
{
    let ghost l = s@.subrange(from as int, to as int);
    let (a, b) = trim_bounds(s, from, to, CharSet::Whitespace);
    if a >= b || s[a] != '#' {
        return None;
    }
    let c = skip_set(s, a + 1, b, CharSet::Hash);
    let (c2, d2) = trim_bounds(s, c, b, CharSet::Whitespace);
    proof {
        let t = s@.subrange(a as int, b as int);
        assert(t.drop_first() =~= s@.subrange(a + 1, b as int));
        assert(trim_start_by(t.drop_first(), CharSet::Hash) =~= s@.subrange(c as int, b as int));
    }
    if c2 >= d2 {
        return None;
    }
    let d3 = skip_set_back(s, c2, d2, CharSet::Hash);
    let (c4, d4) = trim_bounds(s, c2, d3, CharSet::Whitespace);
    proof {
        let h = s@.subrange(c2 as int, d2 as int);
        assert(trim_end_by(h, CharSet::Hash) =~= s@.subrange(c2 as int, d3 as int));
    }
    Some(string_of(s, c4, d4))
}

/// The first Markdown heading of a text (after its frontmatter), if any.
pub fn title_from_markdown(input: &str) -> (r: Option<String>)
    ensures
        match r {
            Some(t) => markdown_title(input@) == Some(t@),
            None => markdown_title(input@) is None,
        },
{
    let body = strip_frontmatter(input);
    let s = chars_of(body.as_str());
    let len = s.len();
    let mut i: usize = 0;
    loop
        invariant
            len == s@.len(),
            0 <= i <= len,
            s@ == stripped_frontmatter(input@),
            title_from(s@, 0) == title_from(s@, i as int),
        decreases len - i,
    {
        proof { lemma_find_from_bounds(s@, '\n', i as int); }
        let e = find_char(s.as_slice(), '\n', i);
        match title_of_line(s.as_slice(), i, e) {
            Some(t) => return Some(t),
            None => {
                if e >= len {
                    return None;
                }
                i = e + 1;
            },
        }
    }
}

// ---------------------------------------------------------------- recognition

/// The Markdown extensions, lower case.
pub open spec fn is_markdown_extension(e: Seq<char>) -> bool {
    e == seq!['m', 'd'] || e == seq!['m', 'd', 'o', 'w', 'n'] || e == seq!['m', 'k', 'd', 'n']
        || e == seq!['m', 'k', 'd'] || e == seq!['m', 'a', 'r', 'k', 'd', 'o', 'w', 'n']
}

/// A path names a Markdown file when its extension is one of `md`, `mdown`, `mkdn`, `mkd`
/// or `markdown`, in any ASCII case.
pub open spec fn is_markdown_path(p: Seq<char>) -> bool {
    match file_name(p) {
        Some(name) => match extension_of(name) {
            Some(e) => is_markdown_extension(ascii_lower(e)),
            None => false,
        },
        None => false,
    }
}

fn is_markdown_extension_exec(e: &[char]) -> (r: bool)
    ensures
        r == is_markdown_extension(e@),
{
    let md = ['m', 'd'];
    let mdown = ['m', 'd', 'o', 'w', 'n'];
    let mkdn = ['m', 'k', 'd', 'n'];
    let mkd = ['m', 'k', 'd'];
    let markdown = ['m', 'a', 'r', 'k', 'd', 'o', 'w', 'n'];
    proof {
        assert(md@ == seq!['m', 'd']);
        assert(mdown@ == seq!['m', 'd', 'o', 'w', 'n']);
        assert(mkdn@ == seq!['m', 'k', 'd', 'n']);
        assert(mkd@ == seq!['m', 'k', 'd']);
        assert(markdown@ == seq!['m', 'a', 'r', 'k', 'd', 'o', 'w', 'n']);
    }
    same_chars(e, &md) || same_chars(e, &mdown) || same_chars(e, &mkdn) || same_chars(e, &mkd)
        || same_chars(e, &markdown)
}

pub fn is_markdown_chars(p: &[char]) -> (r: bool)
    ensures
        r == is_markdown_path(p@),
{
    match file_name_range(p) {
        None => false,
        Some((a, b)) => match extension_range(p, a, b) {
            None => false,
            Some((c, d)) => {
                let lower = lower_ascii_range(p, c, d);
                is_markdown_extension_exec(lower.as_slice())
            },
        },
    }
}

/// Whether `path` names a Markdown file (see `is_markdown_path`).
pub fn is_markdown(path: &str) -> (r: bool)
    ensures
        r == is_markdown_path(path@),
{
    let p = chars_of(path);
    is_markdown_chars(p.as_slice())
}

// ---------------------------------------------------------------- documents

/// The fallback title: the file stem with `-` and `_` read as spaces, or `Untitled`.
pub open spec fn stem_title(path: Seq<char>) -> Seq<char> {
    match file_name(path) {
        Some(name) => stem_of(name).map_values(|c: char| if c == '-' || c == '_' { ' ' } else { c }),
        None => seq!['U', 'n', 't', 'i', 't', 'l', 'e', 'd'],
    }
}

pub open spec fn document_title(path: Seq<char>, contents: Seq<char>) -> Seq<char> {
    match markdown_title(contents) {
        Some(t) => t,
        None => stem_title(path),
    }
}

fn stem_title_exec(p: &[char]) -> (r: String)
    ensures
        r@ == stem_title(p@),
{
    match file_name_range(p) {
        None => {
            let r = String::from_str("Untitled");
            proof { reveal_strlit("Untitled"); }
            r
        },
        Some((a, b)) => {
            let (c, d) = stem_range(p, a, b);
            let mut r = String::new();
            let mut i = c;
            while i < d
                invariant
                    c <= i <= d <= p@.len(),
                    r@ == p@.subrange(c as int, i as int).map_values(
                        |c: char| if c == '-' || c == '_' { ' ' } else { c },
                    ),
                decreases d - i,
            {
                let ch = p[i];
                push_char(&mut r, if ch == '-' || ch == '_' { ' ' } else { ch });
                assert(p@.subrange(c as int, i + 1) == p@.subrange(c as int, i as int).push(p@[i as int]));
                i = i + 1;
            }
            r
        },
    }
}

impl Document {
    /// A document read from `absolute_path`, found at `relative_path` below the root,
    /// whose text is `contents`. Its title is the first heading of the text, or else the
    /// file stem of `absolute_path`.
    pub fn from_contents(
        absolute_path: String,
        relative_path: String,
        contents: &str,
        modified: Timestamp,
        size: u64,
    ) -> (d: Document)
        ensures
            d.absolute_path@ == absolute_path@,
            d.relative_path@ == relative_path@,
            d.title@ == document_title(absolute_path@, contents@),
            d.modified == modified,
            d.size == size,
    {
        let title = match title_from_markdown(contents) {
            Some(t) => t,
            None => {
                let p = chars_of(absolute_path.as_str());
                stem_title_exec(p.as_slice())
            },
        };
        Document { absolute_path, relative_path, title, modified, size }
    }
}

} // verus!

verus! {

// ---------------------------------------------------------------- routes

/// Every `+` written as `%20`.
pub open spec fn replace_plus(s: Seq<char>) -> Seq<char>
    decreases s.len(),
{
    if s.len() == 0 {
        seq![]
    } else {
        replace_plus(s.drop_last()) + if s.last() == '+' {
            seq!['%', '2', '0']
        } else {
            seq![s.last()]
        }
    }
}

/// A path segment, form-urlencoded from its UTF-8 bytes with spaces written as `%20`.
pub open spec fn encode_segment(seg: Seq<char>) -> Seq<char> {
    replace_plus(form_encoded(encode_utf8(seg)))
}

/// The pieces joined with `/` between them.
pub open spec fn join_slash(parts: Seq<Seq<char>>) -> Seq<char>
    decreases parts.len(),
{
    if parts.len() == 0 {
        seq![]
    } else if parts.len() == 1 {
        parts[0]
    } else {
        join_slash(parts.drop_last()) + seq!['/'] + parts.last()
    }
}

/// The web route of a relative path: its components, each encoded, joined with `/`.
pub open spec fn route_of(rel: Seq<char>) -> Seq<char> {
    join_slash(components(rel).map_values(|c: Seq<char>| encode_segment(c)))
}

/// Appends `s` to `out` with every `+` written as `%20`.
pub fn push_replacing_plus(out: &mut String, s: &[char])
    ensures
        final(out)@ == old(out)@ + replace_plus(s@),
{
    let mut i: usize = 0;
    while i < s.len()
        invariant
            0 <= i <= s@.len(),
            out@ == old(out)@ + replace_plus(s@.take(i as int)),
        decreases s@.len() - i,
    {
        let c = s[i];
        proof {
            assert(s@.take(i + 1).drop_last() == s@.take(i as int));
        }
        if c == '+' {
            push_char(out, '%');
            push_char(out, '2');
            push_char(out, '0');
        } else {
            push_char(out, c);
        }
        i = i + 1;
    }
    assert(s@.take(s@.len() as int) == s@);
}

/// Encodes one path segment for a web route.
pub fn encode_segment_exec(seg: &str) -> (r: String)
    ensures
        r@ == encode_segment(seg@),
{
    let encoded = form_urlencode(seg);
    let chars = chars_of(encoded.as_str());
    let mut out = String::new();
    push_replacing_plus(&mut out, chars.as_slice());
    out
}

pub proof fn lemma_join_slash_step(parts: Seq<Seq<char>>, k: int)
    requires
        0 <= k < parts.len(),
    ensures
        join_slash(parts.take(k + 1)) == if k == 0 {
            parts[0]
        } else {
            join_slash(parts.take(k)) + seq!['/'] + parts[k]
        },
{
    assert(parts.take(k + 1).drop_last() == parts.take(k));
    if k == 0 {
        assert(parts.take(1)[0] == parts[0]);
    }
}

/// The route of a relative path (see `route_of`).
pub fn route_for(rel: &[char]) -> (r: String)
    ensures
        r@ == route_of(rel@),
{
    let ranges = component_ranges(rel);
    let ghost parts = components(rel@).map_values(|c: Seq<char>| encode_segment(c));
    let mut out = String::new();
    let mut k: usize = 0;
    while k < ranges.len()
        invariant
            0 <= k <= ranges@.len(),
            ranges_text(rel@, ranges@) == components(rel@),
            forall|j: int| 0 <= j < ranges@.len() ==> (#[trigger] ranges@[j]).0 <= ranges@[j].1 <= rel@.len(),
            parts == components(rel@).map_values(|c: Seq<char>| encode_segment(c)),
            out@ == join_slash(parts.take(k as int)),
        decreases ranges@.len() - k,
    {
        let (a, b) = ranges[k];
        let seg = string_of(rel, a, b);
        let enc = encode_segment_exec(seg.as_str());
        proof {
            assert(components(rel@)[k as int] == rel@.subrange(a as int, b as int));
            assert(parts[k as int] == enc@);
            lemma_join_slash_step(parts, k as int);
        }
        if k > 0 {
            push_char(&mut out, '/');
        }
        let enc_chars = chars_of(enc.as_str());
        push_range(&mut out, enc_chars.as_slice(), 0, enc_chars.len());
        proof {
            assert(enc_chars@.subrange(0, enc_chars@.len() as int) == enc_chars@);
        }
        k = k + 1;
    }
    proof {
        assert(parts.take(ranges@.len() as int) == parts);
    }
    out
}

impl Document {
    /// The web route of this document: each component of its relative path encoded
    /// (spaces as `%20`), joined with `/`.
    pub fn route(&self) -> (r: String)
        ensures
            r@ == route_of(self.relative_path@),
    {
        let rel = chars_of(self.relative_path.as_str());
        route_for(rel.as_slice())
    }
}

// ---------------------------------------------------------------- routes decode back

/// A character a route may hold: an ASCII letter or digit, or one of `*`, `.`, `_`, `-`,
/// `%` and `/`.
pub open spec fn route_char(c: char) -> bool {
    ('A' <= c && c <= 'Z') || ('a' <= c && c <= 'z') || ('0' <= c && c <= '9') || c == '*' || c == '.' || c == '_'
        || c == '-' || c == '%' || c == '/'
}

pub open spec fn route_chars_only(s: Seq<char>) -> bool {
    forall|i: int| 0 <= i < s.len() ==> route_char(#[trigger] s[i])
}

/// The bytes of an ASCII text, one per character.
pub open spec fn ascii_bytes(s: Seq<char>) -> Seq<u8> {
    s.map_values(|c: char| c as u8)
}

/// Bytes that percent-decoding reads as whole tokens: each byte other than `%` alone, and
/// each `%` with the two hexadecimal digits after it.
pub open spec fn whole_tokens(b: Seq<u8>) -> bool
    decreases b.len(),
{
    if b.len() == 0 {
        true
    } else if b[0] != 0x25 {
        whole_tokens(b.skip(1))
    } else {
        b.len() >= 3 && hex_digit(b[1]) is Some && hex_digit(b[2]) is Some && whole_tokens(b.skip(3))
    }
}

proof fn lemma_tokens_concat(a: Seq<u8>, r: Seq<u8>)
    requires
        whole_tokens(a),
    ensures
        percent_decoded(a + r) == percent_decoded(a) + percent_decoded(r),
        whole_tokens(r) ==> whole_tokens(a + r),
    decreases a.len(),
{
    if a.len() == 0 {
        assert(a + r =~= r);
        assert(percent_decoded(a) =~= Seq::<u8>::empty());
        assert(percent_decoded(a) + percent_decoded(r) =~= percent_decoded(r));
    } else if a[0] != 0x25 {
        let x = a + r;
        assert(x[0] == a[0]);
        assert(x.skip(1) =~= a.skip(1) + r);
        lemma_tokens_concat(a.skip(1), r);
        assert(seq![a[0]] + (percent_decoded(a.skip(1)) + percent_decoded(r)) =~= seq![a[0]] + percent_decoded(
            a.skip(1),
        ) + percent_decoded(r));
    } else {
        let x = a + r;
        assert(x[0] == a[0] && x[1] == a[1] && x[2] == a[2]);
        assert(x.skip(3) =~= a.skip(3) + r);
        lemma_tokens_concat(a.skip(3), r);
        let v = seq![(hex_digit(a[1])->0 * 16 + hex_digit(a[2])->0) as u8];
        assert(v + (percent_decoded(a.skip(3)) + percent_decoded(r)) =~= v + percent_decoded(a.skip(3))
            + percent_decoded(r));
    }
}

proof fn lemma_ascii_bytes_concat(a: Seq<char>, b: Seq<char>)
    ensures
        ascii_bytes(a + b) == ascii_bytes(a) + ascii_bytes(b),
{
    assert(ascii_bytes(a + b) =~= ascii_bytes(a) + ascii_bytes(b));
}

proof fn lemma_replace_plus_concat(a: Seq<char>, b: Seq<char>)
    ensures
        replace_plus(a + b) == replace_plus(a) + replace_plus(b),
    decreases b.len(),
{
    if b.len() == 0 {
        assert(a + b =~= a);
        assert(replace_plus(b) =~= Seq::<char>::empty());
        assert(replace_plus(a) + replace_plus(b) =~= replace_plus(a));
    } else {
        lemma_replace_plus_concat(a, b.drop_last());
        assert((a + b).drop_last() =~= a + b.drop_last());
        assert((a + b).last() == b.last());
        let t = if b.last() == '+' { seq!['%', '2', '0'] } else { seq![b.last()] };
        assert(replace_plus(a) + replace_plus(b.drop_last()) + t =~= replace_plus(a) + (replace_plus(b.drop_last())
            + t));
    }
}

/// One byte of a path component as a route writes it, and how it reads back.
proof fn lemma_route_byte(b: u8)
    ensures
        is_ascii_chars(replace_plus(form_byte(b))),
        route_chars_only(replace_plus(form_byte(b))),
        !replace_plus(form_byte(b)).contains('/'),
        whole_tokens(ascii_bytes(replace_plus(form_byte(b)))),
        percent_decoded(ascii_bytes(replace_plus(form_byte(b)))) == seq![b],
{
    if form_unchanged(b) {
        let c = b as char;
        assert(form_byte(b) == seq![c]);
        assert(seq![c].drop_last() =~= Seq::<char>::empty());
        assert(replace_plus(Seq::<char>::empty()) =~= Seq::<char>::empty());
        assert(c != '+');
        assert(replace_plus(seq![c]) == replace_plus(seq![c].drop_last()) + seq![c]);
        assert(replace_plus(seq![c]) =~= seq![c]);
        assert(ascii_bytes(seq![c]) =~= seq![b]);
        assert(seq![b].skip(1) =~= Seq::<u8>::empty());
        assert(b != 0x25);
        assert(whole_tokens(Seq::<u8>::empty()));
        assert(percent_decoded(Seq::<u8>::empty()) =~= Seq::<u8>::empty());
        assert(whole_tokens(seq![b]));
        assert(percent_decoded(seq![b]) == seq![seq![b][0]] + percent_decoded(seq![b].skip(1)));
        assert(percent_decoded(seq![b]) =~= seq![b]);
    } else if b == 0x20 {
        assert(form_byte(b) == seq!['+']);
        assert(seq!['+'].drop_last() =~= Seq::<char>::empty());
        assert(replace_plus(Seq::<char>::empty()) =~= Seq::<char>::empty());
        assert(replace_plus(seq!['+']) == replace_plus(seq!['+'].drop_last()) + seq!['%', '2', '0']);
        assert(replace_plus(seq!['+']) =~= seq!['%', '2', '0']);
        let x = ascii_bytes(seq!['%', '2', '0']);
        assert(x =~= seq![0x25u8, 0x32u8, 0x30u8]);
        assert(x.skip(3) =~= Seq::<u8>::empty());
        assert(whole_tokens(Seq::<u8>::empty()));
        assert(percent_decoded(Seq::<u8>::empty()) =~= Seq::<u8>::empty());
        assert(hex_digit(x[1]) == Some(2u8) && hex_digit(x[2]) == Some(0u8));
        assert(whole_tokens(x));
        assert(percent_decoded(x) == seq![(2 * 16 + 0) as u8] + percent_decoded(x.skip(3)));
        assert(percent_decoded(x) =~= seq![b]);
    } else {
        let h1 = hex_upper(b as int / 16);
        let h2 = hex_upper(b as int % 16);
        let e = seq!['%', h1, h2];
        assert(form_byte(b) == e);
        assert(h1 != '+' && h2 != '+');
        assert(e.drop_last() =~= seq!['%', h1]);
        assert(seq!['%', h1].drop_last() =~= seq!['%']);
        assert(seq!['%'].drop_last() =~= Seq::<char>::empty());
        assert(replace_plus(Seq::<char>::empty()) =~= Seq::<char>::empty());
        assert(replace_plus(seq!['%']) == replace_plus(seq!['%'].drop_last()) + seq!['%']);
        assert(replace_plus(seq!['%']) =~= seq!['%']);
        assert(replace_plus(seq!['%', h1]) == replace_plus(seq!['%', h1].drop_last()) + seq![h1]);
        assert(replace_plus(seq!['%', h1]) =~= seq!['%', h1]);
        assert(replace_plus(e) == replace_plus(e.drop_last()) + seq![h2]);
        assert(replace_plus(e) =~= e);
        let x = ascii_bytes(e);
        assert(x =~= seq![0x25u8, h1 as u8, h2 as u8]);
        assert(hex_digit(h1 as u8) == Some((b as int / 16) as u8));
        assert(hex_digit(h2 as u8) == Some((b as int % 16) as u8));
        assert(x.skip(3) =~= Seq::<u8>::empty());
        assert(((b as int / 16) * 16 + b as int % 16) as u8 == b);
        assert(whole_tokens(Seq::<u8>::empty()));
        assert(percent_decoded(Seq::<u8>::empty()) =~= Seq::<u8>::empty());
        assert(whole_tokens(x));
        assert(percent_decoded(x) == seq![(hex_digit(x[1])->0 * 16 + hex_digit(x[2])->0) as u8] + percent_decoded(
            x.skip(3),
        ));
        assert(percent_decoded(x) =~= seq![b]);
    }
}

/// An encoded path component is ASCII, holds only route characters and no `/`, reads as
/// whole percent-encoded tokens, and percent-decodes to the bytes it encodes.
pub proof fn lemma_route_segment(u: Seq<u8>)
    ensures
        is_ascii_chars(replace_plus(form_encoded(u))),
        route_chars_only(replace_plus(form_encoded(u))),
        !replace_plus(form_encoded(u)).contains('/'),
        whole_tokens(ascii_bytes(replace_plus(form_encoded(u)))),
        percent_decoded(ascii_bytes(replace_plus(form_encoded(u)))) == u,
    decreases u.len(),
{
    if u.len() == 0 {
        assert(form_encoded(u) =~= Seq::<char>::empty());
        assert(replace_plus(Seq::<char>::empty()) =~= Seq::<char>::empty());
        assert(ascii_bytes(Seq::<char>::empty()) =~= Seq::<u8>::empty());
        assert(percent_decoded(Seq::<u8>::empty()) =~= Seq::<u8>::empty());
        assert(whole_tokens(Seq::<u8>::empty()));
    } else {
        let init = u.drop_last();
        let b = u.last();
        lemma_route_segment(init);
        lemma_route_byte(b);
        assert(form_encoded(u) == form_encoded(init) + form_byte(b));
        lemma_replace_plus_concat(form_encoded(init), form_byte(b));
        let e1 = replace_plus(form_encoded(init));
        let p = replace_plus(form_byte(b));
        lemma_ascii_bytes_concat(e1, p);
        lemma_tokens_concat(ascii_bytes(e1), ascii_bytes(p));
        assert(init + seq![b] =~= u);
        let e = e1 + p;
        assert forall|k: int| 0 <= k < e.len() implies '\0' <= #[trigger] e[k] <= '\u{7f}' && route_char(e[k]) && e[k]
            != '/' by {
            if k < e1.len() {
                assert(e[k] == e1[k]);
            } else {
                assert(e[k] == p[k - e1.len()]);
            }
        }
    }
}

proof fn lemma_encode_utf8_concat(a: Seq<char>, b: Seq<char>)
    ensures
        encode_utf8(a + b) == encode_utf8(a) + encode_utf8(b),
    decreases a.len(),
{
    if a.len() == 0 {
        assert(a + b =~= b);
        assert(encode_utf8(a) =~= Seq::<u8>::empty());
        assert(encode_utf8(a) + encode_utf8(b) =~= encode_utf8(b));
    } else {
        assert((a + b)[0] == a[0]);
        assert((a + b).drop_first() =~= a.drop_first() + b);
        lemma_encode_utf8_concat(a.drop_first(), b);
        let h = vstd::utf8::encode_scalar(a[0] as u32);
        assert(h + (encode_utf8(a.drop_first()) + encode_utf8(b)) =~= h + encode_utf8(a.drop_first()) + encode_utf8(b));
    }
}

/// The UTF-8 bytes of an ASCII text are its characters' codes.
pub proof fn lemma_ascii_encoding(s: Seq<char>)
    requires
        is_ascii_chars(s),
    ensures
        encode_utf8(s) == ascii_bytes(s),
{
    vstd::utf8::is_ascii_chars_encode_utf8(s);
    assert(encode_utf8(s) =~= ascii_bytes(s));
}

/// A route is ASCII, reads as whole percent-encoded tokens, and percent-decodes to the
/// UTF-8 bytes of the components joined with `/`.
pub proof fn lemma_route_decodes(comps: Seq<Seq<char>>)
    requires
        comps.len() >= 1,
    ensures
        is_ascii_chars(join_slash(comps.map_values(|c: Seq<char>| encode_segment(c)))),
        route_chars_only(join_slash(comps.map_values(|c: Seq<char>| encode_segment(c)))),
        whole_tokens(ascii_bytes(join_slash(comps.map_values(|c: Seq<char>| encode_segment(c))))),
        percent_decoded(ascii_bytes(join_slash(comps.map_values(|c: Seq<char>| encode_segment(c)))))
            == encode_utf8(crate::text::join_with(comps, seq!['/'])),
    decreases comps.len(),
{
    let e = comps.map_values(|c: Seq<char>| encode_segment(c));
    if comps.len() == 1 {
        lemma_route_segment(encode_utf8(comps[0]));
        assert(join_slash(e) == e[0]);
    } else {
        let init = comps.drop_last();
        let last = comps.last();
        lemma_route_decodes(init);
        assert(e.drop_last() =~= init.map_values(|c: Seq<char>| encode_segment(c)));
        lemma_route_segment(encode_utf8(last));
        let j1 = join_slash(e.drop_last());
        let el = e.last();
        assert(el == encode_segment(last));
        assert(join_slash(e) == j1 + seq!['/'] + el);
        lemma_ascii_bytes_concat(j1 + seq!['/'], el);
        lemma_ascii_bytes_concat(j1, seq!['/']);
        let slash = ascii_bytes(seq!['/']);
        assert(slash =~= seq![0x2Fu8]);
        assert(slash.skip(1) =~= Seq::<u8>::empty());
        assert(whole_tokens(Seq::<u8>::empty()));
        assert(whole_tokens(slash));
        lemma_tokens_concat(slash, ascii_bytes(el));
        assert(percent_decoded(Seq::<u8>::empty()) =~= Seq::<u8>::empty());
        assert(percent_decoded(slash) == seq![slash[0]] + percent_decoded(slash.skip(1)));
        assert(percent_decoded(slash) =~= seq![0x2Fu8]);
        lemma_tokens_concat(ascii_bytes(j1), slash + ascii_bytes(el));
        assert(ascii_bytes(join_slash(e)) =~= ascii_bytes(j1) + (slash + ascii_bytes(el)));
        let k1 = crate::text::join_with(init, seq!['/']);
        assert(crate::text::join_with(comps, seq!['/']) == k1 + seq!['/'] + last);
        lemma_encode_utf8_concat(k1 + seq!['/'], last);
        lemma_encode_utf8_concat(k1, seq!['/']);
        assert(is_ascii_chars(seq!['/']));
        lemma_ascii_encoding(seq!['/']);
        assert(encode_utf8(k1 + seq!['/'] + last) =~= encode_utf8(k1) + (seq![0x2Fu8] + encode_utf8(last)));
        let j = join_slash(e);
        assert forall|k: int| 0 <= k < j.len() implies '\0' <= #[trigger] j[k] <= '\u{7f}' && route_char(j[k]) by {
            if k < j1.len() {
                assert(j[k] == j1[k]);
            } else if k == j1.len() {
            } else {
                assert(j[k] == el[k - j1.len() - 1]);
            }
        }
    }
}

} // verus!


