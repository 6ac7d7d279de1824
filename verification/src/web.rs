//! The documentation site's own rules: which request paths name an indexed file, which
//! files count as assets, and the pages it answers with.

use vstd::prelude::*;
use vstd::utf8::{decode_utf8, encode_utf8, valid_utf8};
use crate::calls::{encode_attribute, encode_text, escaped_attr, escaped_text, lowercased, percent_decode_utf8, percent_decoded, to_lowercase};
use crate::discover::{comps_of_chars, same_comps};
use crate::paths::{component_ranges, components, extension_of, extension_range, file_name, file_name_range, ranges_text};
use crate::text::{
    ascii_lower, chars_of, dec, push_decimal, find_char, find_from, join_strings, join_with, lemma_find_from_bounds,
    lower_ascii_range, range_is, same_chars, string_of, string_views,
};

verus! {

// ---------------------------------------------------------------- request paths

/// The pieces of `s[i..]` between `/` separators, empty ones included (`str::split('/')`).
pub open spec fn pieces_from(s: Seq<char>, i: int) -> Seq<Seq<char>>
    decreases s.len() - i + 1,
{
    if i < 0 || i > s.len() {
        seq![]
    } else {
        let e = find_from(s, '/', i);
        proof {
            lemma_find_from_bounds(s, '/', i);
        }
        if e < s.len() {
            seq![s.subrange(i, e)] + pieces_from(s, e + 1)
        } else {
            seq![s.subrange(i, e)]
        }
    }
}

/// A path segment that names a file or folder by itself: not empty, `.` or `..`.
pub open spec fn plain_segment(p: Seq<char>) -> bool {
    p.len() > 0 && p != "."@ && p != ".."@
}

pub open spec fn all_plain(ps: Seq<Seq<char>>) -> bool {
    forall|k: int| 0 <= k < ps.len() ==> plain_segment(#[trigger] ps[k])
}

/// A decoded route that names a file below the root: not empty, relative, without
/// backslashes or NULs, and made of plain segments only.
pub open spec fn safe_route(d: Seq<char>) -> bool {
    &&& d.len() > 0
    &&& d[0] != '/'
    &&& !d.contains('\\')
    &&& !d.contains('\0')
    &&& all_plain(pieces_from(d, 0))
}

/// The index key that the request path `uri_path` names under `prefix`: the rest of the
/// path percent-decoded as UTF-8, where that is a safe route (see `safe_route`).
pub open spec fn route_key_of(uri_path: Seq<char>, prefix: Seq<char>) -> Option<Seq<char>> {
    if !prefix.is_prefix_of(uri_path) {
        None
    } else {
        let bytes = percent_decoded(encode_utf8(uri_path.skip(prefix.len() as int)));
        if !valid_utf8(bytes) || !safe_route(decode_utf8(bytes)) {
            None
        } else {
            Some(decode_utf8(bytes))
        }
    }
}

/// Whether `s[from..to]` holds `c`.
fn holds_char(s: &[char], c: char) -> (r: bool)
    ensures
        r == s@.contains(c),
{
    let mut i: usize = 0;
    while i < s.len()
        invariant
            0 <= i <= s@.len(),
            forall|j: int| 0 <= j < i ==> s@[j] != c,
        decreases s@.len() - i,
    {
        if s[i] == c {
            return true;
        }
        i = i + 1;
    }
    false
}

/// Whether every `/`-separated piece of `s` is a plain segment.
fn plain_pieces(s: &[char]) -> (r: bool)
    ensures
        r == all_plain(pieces_from(s@, 0)),
{
    let dot = ['.'];
    let dots = ['.', '.'];
    assert(dot@ == "."@) by {
        reveal_strlit(".");
    }
    assert(dots@ == ".."@) by {
        reveal_strlit("..");
    }
    let mut i: usize = 0;
    loop
        invariant
            0 <= i <= s@.len(),
            dot@ == "."@,
            dots@ == ".."@,
            all_plain(pieces_from(s@, 0)) == all_plain(pieces_from(s@, i as int)),
        decreases s@.len() - i,
    {
        let e = find_char(s, '/', i);
        let ghost ps = pieces_from(s@, i as int);
        let ghost seg = s@.subrange(i as int, e as int);
        assert(ps[0] == seg);
        let plain = e > i && !range_is(s, i, e, &dot) && !range_is(s, i, e, &dots);
        if !plain {
            assert(!plain_segment(ps[0]));
            return false;
        }
        if e >= s.len() {
            assert(ps == seq![seg]);
            return true;
        }
        proof {
            let rest = pieces_from(s@, e + 1);
            assert(ps == seq![seg] + rest);
            if all_plain(rest) {
                assert forall|k: int| 0 <= k < ps.len() implies plain_segment(#[trigger] ps[k]) by {
                    if k > 0 {
                        assert(ps[k] == rest[k - 1]);
                    }
                }
            } else {
                let k = choose|k: int| 0 <= k < rest.len() && !plain_segment(#[trigger] rest[k]);
                assert(ps[k + 1] == rest[k]);
            }
        }
        i = e + 1;
    }
}

/// The index key that the request path `uri_path` names under `prefix` (see
/// `route_key_of`).
pub fn route_key(uri_path: &str, prefix: &str) -> (r: Option<String>)
    ensures
        r matches Some(k) ==> route_key_of(uri_path@, prefix@) == Some(k@),
        r is None ==> route_key_of(uri_path@, prefix@) is None,
{
    let u = chars_of(uri_path);
    let p = chars_of(prefix);
    if p.len() > u.len() || !range_is(u.as_slice(), 0, p.len(), p.as_slice()) {
        return None;
    }
    let rest = string_of(u.as_slice(), p.len(), u.len());
    assert(rest@ == uri_path@.skip(prefix@.len() as int));
    let decoded = match percent_decode_utf8(rest.as_str()) {
        Some(d) => d,
        None => return None,
    };
    let d = chars_of(decoded.as_str());
    if d.len() == 0 || d[0] == '/' || holds_char(d.as_slice(), '\\') || holds_char(d.as_slice(), '\0') {
        return None;
    }
    if !plain_pieces(d.as_slice()) {
        return None;
    }
    Some(decoded)
}

/// Whether a relative path begins with a `.` component (`Path::components` keeps only
/// that one).
pub open spec fn leading_cur_dir(p: Seq<char>) -> bool {
    p.len() > 0 && p[0] == '.' && (p.len() == 1 || p[1] == '/')
}

/// A component that may stand in an index key.
pub open spec fn key_component(c: Seq<char>) -> bool {
    c != ".."@ && !c.contains('\\') && !c.contains('\0')
}

/// The key of a relative path: its components joined with `/`, where the path is
/// relative, does not begin with `.`, has only plain components without backslashes or
/// NULs, and has at least one.
pub open spec fn relative_key_of(path: Seq<char>) -> Option<Seq<char>> {
    let c = components(path);
    if (path.len() > 0 && path[0] == '/') || leading_cur_dir(path) || c.len() == 0 {
        None
    } else if forall|k: int| 0 <= k < c.len() ==> key_component(#[trigger] c[k]) {
        Some(join_with(c, "/"@))
    } else {
        None
    }
}

/// The index key of a relative path (see `relative_key_of`).
pub fn relative_key(path: &str) -> (r: Option<String>)
    ensures
        r matches Some(k) ==> relative_key_of(path@) == Some(k@),
        r is None ==> relative_key_of(path@) is None,
{
    let s = chars_of(path);
    if s.len() > 0 && (s[0] == '/' || (s[0] == '.' && (s.len() == 1 || s[1] == '/'))) {
        return None;
    }
    let ranges = component_ranges(s.as_slice());
    if ranges.len() == 0 {
        return None;
    }
    let dots = ['.', '.'];
    assert(dots@ == ".."@) by {
        reveal_strlit("..");
    }
    let ghost c = components(path@);
    let mut parts: Vec<String> = Vec::new();
    let mut k: usize = 0;
    while k < ranges.len()
        invariant
            k <= ranges@.len(),
            s@ == path@,
            dots@ == ".."@,
            c == components(path@),
            ranges_text(s@, ranges@) == c,
            forall|j: int| 0 <= j < ranges@.len() ==> (#[trigger] ranges@[j]).0 <= ranges@[j].1 <= s@.len(),
            string_views(parts@) == c.take(k as int),
            forall|j: int| 0 <= j < k ==> key_component(#[trigger] c[j]),
        decreases ranges@.len() - k,
    {
        let (a, b) = ranges[k];
        let piece = string_of(s.as_slice(), a, b);
        let pc = chars_of(piece.as_str());
        assert(c[k as int] == pc@);
        if range_is(s.as_slice(), a, b, &dots) || holds_char(pc.as_slice(), '\\') || holds_char(pc.as_slice(), '\0') {
            return None;
        }
        let ghost before = string_views(parts@);
        parts.push(piece);
        assert(string_views(parts@) == before.push(c[k as int]));
        assert(c.take(k + 1) == c.take(k as int).push(c[k as int]));
        k = k + 1;
    }
    assert(c.take(ranges@.len() as int) == c);
    Some(join_strings(&parts, "/"))
}

// ---------------------------------------------------------------- assets

/// The content type of an asset file by its extension (ASCII case ignored); nothing for
/// any file outside the list of images and PDF.
pub open spec fn asset_content_type_of(path: Seq<char>) -> Option<Seq<char>> {
    match file_name(path) {
        None => None,
        Some(name) => match extension_of(name) {
            None => None,
            Some(e) => {
                let x = ascii_lower(e);
                if x == "avif"@ {
                    Some("image/avif"@)
                } else if x == "bmp"@ {
                    Some("image/bmp"@)
                } else if x == "gif"@ {
                    Some("image/gif"@)
                } else if x == "ico"@ {
                    Some("image/x-icon"@)
                } else if x == "jpeg"@ || x == "jpg"@ {
                    Some("image/jpeg"@)
                } else if x == "png"@ {
                    Some("image/png"@)
                } else if x == "svg"@ {
                    Some("image/svg+xml"@)
                } else if x == "webp"@ {
                    Some("image/webp"@)
                } else if x == "pdf"@ {
                    Some("application/pdf"@)
                } else {
                    None
                }
            },
        },
    }
}

/// Whether `x` holds the characters of `lit`.
fn is_word(x: &[char], lit: &str) -> (r: bool)
    ensures
        r == (x@ == lit@),
{
    let l = chars_of(lit);
    same_chars(x, l.as_slice())
}

/// The content type under which an asset file is served, if it may be (see
/// `asset_content_type_of`).
pub fn allowed_asset_content_type(path: &str) -> (r: Option<&'static str>)
    ensures
        r matches Some(t) ==> asset_content_type_of(path@) == Some(t@),
        r is None ==> asset_content_type_of(path@) is None,
{
    let p = chars_of(path);
    let (a, b) = match file_name_range(p.as_slice()) {
        Some(range) => range,
        None => return None,
    };
    let (c, d) = match extension_range(p.as_slice(), a, b) {
        Some(range) => range,
        None => return None,
    };
    let lower = lower_ascii_range(p.as_slice(), c, d);
    let x = lower.as_slice();
    if is_word(x, "avif") {
        Some("image/avif")
    } else if is_word(x, "bmp") {
        Some("image/bmp")
    } else if is_word(x, "gif") {
        Some("image/gif")
    } else if is_word(x, "ico") {
        Some("image/x-icon")
    } else if is_word(x, "jpeg") || is_word(x, "jpg") {
        Some("image/jpeg")
    } else if is_word(x, "png") {
        Some("image/png")
    } else if is_word(x, "svg") {
        Some("image/svg+xml")
    } else if is_word(x, "webp") {
        Some("image/webp")
    } else if is_word(x, "pdf") {
        Some("application/pdf")
    } else {
        None
    }
}

// ---------------------------------------------------------------- the site

/// The name shown for the documentation root: its folder name, or `Documentation`.
pub open spec fn root_name_of(root: Seq<char>) -> Seq<char> {
    match file_name(root) {
        Some(n) => if n.len() > 0 {
            n
        } else {
            "Documentation"@
        },
        None => "Documentation"@,
    }
}

pub fn display_root_name(root: &str) -> (r: String)
    ensures
        r@ == root_name_of(root@),
{
    let s = chars_of(root);
    match file_name_range(s.as_slice()) {
        Some((a, b)) => if b > a {
            string_of(s.as_slice(), a, b)
        } else {
            String::from_str("Documentation")
        },
        None => String::from_str("Documentation"),
    }
}

/// A document of the site, as its pages list it.
#[derive(Clone, Debug)]
pub struct SiteDocument {
    /// Its index key.
    pub key: String,
    /// Its path relative to the root.
    pub relative: String,
    /// Its web route (below `/doc/`).
    pub route: String,
    pub title: String,
}

/// The route the site opens with: that of the preferred document when the site holds
/// its key, else that of the first document, else none.
pub open spec fn preferred_route_of(preferred_key: Option<Seq<char>>, documents: Seq<SiteDocument>) -> Option<Seq<char>> {
    let found = match preferred_key {
        Some(k) => exists|i: int| 0 <= i < documents.len() && documents[i].key@ == k,
        None => false,
    };
    if found {
        let k = preferred_key->0;
        Some(documents[choose|i: int| 0 <= i < documents.len() && documents[i].key@ == k].route@)
    } else if documents.len() > 0 {
        Some(documents[0].route@)
    } else {
        None
    }
}

/// Keys are unique among the site's documents.
pub open spec fn unique_keys(documents: Seq<SiteDocument>) -> bool {
    forall|i: int, j: int|
        0 <= i < documents.len() && 0 <= j < documents.len() && (#[trigger] documents[i]).key@
            == (#[trigger] documents[j]).key@ ==> i == j
}

/// The route the site opens with (see `preferred_route_of`); `documents` are the site's
/// documents in key order, keys unique.
pub fn preferred_route(preferred_key: Option<String>, documents: &Vec<SiteDocument>) -> (r: Option<String>)
    requires
        unique_keys(documents@),
    ensures
        r matches Some(x) ==> preferred_route_of(crate::tunnel::text_of(preferred_key), documents@) == Some(x@),
        r is None ==> preferred_route_of(crate::tunnel::text_of(preferred_key), documents@) is None,
{
    if let Some(key) = &preferred_key {
        let kc = chars_of(key.as_str());
        let mut i: usize = 0;
        while i < documents.len()
            invariant
                i <= documents@.len(),
                unique_keys(documents@),
                crate::tunnel::text_of(preferred_key) == Some(key@),
                kc@ == key@,
                forall|j: int| 0 <= j < i ==> documents@[j].key@ != key@,
            decreases documents@.len() - i,
        {
            let dk = chars_of(documents[i].key.as_str());
            if same_chars(dk.as_slice(), kc.as_slice()) {
                let r = documents[i].route.clone();
                proof {
                    assert(documents@[i as int].key@ == key@);
                    assert(crate::tunnel::text_of(preferred_key) == Some(key@));
                    let c = choose|j: int| 0 <= j < documents@.len() && documents@[j].key@ == key@;
                    assert(documents@[c].key@ == documents@[i as int].key@);
                    assert(c == i);
                    assert(preferred_route_of(Some(key@), documents@) == Some(documents@[i as int].route@));
                    assert(r@ == documents@[i as int].route@);
                }
                return Some(r);
            }
            i = i + 1;
        }
    }
    if documents.len() > 0 {
        Some(documents[0].route.clone())
    } else {
        None
    }
}

/// The revision a fresh scan of the site gets: the current one when nothing changed,
/// else the next (at most `u64::MAX`).
pub open spec fn next_revision_of(current_fingerprint: u64, current_revision: u64, next_fingerprint: u64) -> u64 {
    if next_fingerprint == current_fingerprint {
        current_revision
    } else if current_revision == u64::MAX {
        u64::MAX
    } else {
        (current_revision + 1) as u64
    }
}

pub fn next_revision(current_fingerprint: u64, current_revision: u64, next_fingerprint: u64) -> (r: u64)
    ensures
        r == next_revision_of(current_fingerprint, current_revision, next_fingerprint),
{
    if next_fingerprint == current_fingerprint {
        current_revision
    } else {
        current_revision.saturating_add(1)
    }
}

// ---------------------------------------------------------------- pages

/// Whether a path is absolute, whether it begins with a `.` component, and its other
/// components: what `Path` compares.
pub open spec fn path_shape(p: Seq<char>) -> (bool, bool, Seq<Seq<char>>) {
    let rooted = p.len() > 0 && p[0] == '/';
    (rooted, !rooted && leading_cur_dir(p), components(p))
}

/// `Path::components().count()`.
pub open spec fn component_count(p: Seq<char>) -> nat {
    let s = path_shape(p);
    s.2.len() + (if s.0 { 1nat } else { 0nat }) + (if s.1 { 1nat } else { 0nat })
}

/// The indentation level of a document in the site's list: its depth, at most 8.
pub open spec fn nav_depth(relative: Seq<char>) -> nat {
    let c = component_count(relative);
    if c == 0 {
        0
    } else if c - 1 > 8 {
        8
    } else {
        (c - 1) as nat
    }
}

/// The link of one document in the site's list, marked when it is the open one.
pub open spec fn nav_link(d: SiteDocument, current: Seq<char>) -> Seq<char> {
    "<a class=\"doc-link depth-"@ + dec(nav_depth(d.relative@)) + "\" href=\"/doc/"@ + d.route@
        + "\" data-search=\""@ + escaped_attr(lowercased(d.title@ + " "@ + d.relative@)) + "\" title=\""@
        + escaped_attr(d.relative@) + "\""@ + (if path_shape(d.relative@) == path_shape(current) {
        " aria-current=\"page\""@
    } else {
        seq![]
    }) + ">"@ + escaped_text(d.title@) + "</a>"@
}

/// The site's list of documents, with `current` marked.
pub open spec fn navigation_of(documents: Seq<SiteDocument>, current: Seq<char>) -> Seq<char>
    decreases documents.len(),
{
    if documents.len() == 0 {
        seq![]
    } else {
        navigation_of(documents.drop_last(), current) + nav_link(documents.last(), current)
    }
}

fn shape_flags(p: &[char]) -> (r: (bool, bool))
    ensures
        r.0 == path_shape(p@).0,
        r.1 == path_shape(p@).1,
{
    let rooted = p.len() > 0 && p[0] == '/';
    (rooted, !rooted && p.len() > 0 && p[0] == '.' && (p.len() == 1 || p[1] == '/'))
}

/// Whether two paths are equal as `Path`s.
pub fn same_path(a: &str, b: &str) -> (r: bool)
    ensures
        r == (path_shape(a@) == path_shape(b@)),
{
    let ac = chars_of(a);
    let bc = chars_of(b);
    let fa = shape_flags(ac.as_slice());
    let fb = shape_flags(bc.as_slice());
    let ca = comps_of_chars(ac.as_slice());
    let cb = comps_of_chars(bc.as_slice());
    fa.0 == fb.0 && fa.1 == fb.1 && same_comps(&ca, &cb)
}

fn depth_of(relative: &str) -> (r: u64)
    ensures
        r == nav_depth(relative@),
{
    let s = chars_of(relative);
    let f = shape_flags(s.as_slice());
    let ranges = component_ranges(s.as_slice());
    proof {
        assert(ranges_text(s@, ranges@).len() == ranges@.len());
    }
    let mut count = ranges.len();
    if count > 8 {
        return 8;
    }
    if f.0 {
        count = count + 1;
    }
    if f.1 {
        count = count + 1;
    }
    if count == 0 {
        0
    } else if count - 1 > 8 {
        8
    } else {
        (count - 1) as u64
    }
}

fn push_nav_link(out: &mut String, d: &SiteDocument, current: &str)
    ensures
        final(out)@ == old(out)@ + nav_link(*d, current@),
{
    out.append("<a class=\"doc-link depth-");
    push_decimal(out, depth_of(d.relative.as_str()));
    out.append("\" href=\"/doc/");
    out.append(d.route.as_str());
    out.append("\" data-search=\"");
    let mut words = d.title.clone();
    words.append(" ");
    words.append(d.relative.as_str());
    let lower = to_lowercase(words.as_str());
    out.append(encode_attribute(lower.as_str()).as_str());
    out.append("\" title=\"");
    out.append(encode_attribute(d.relative.as_str()).as_str());
    out.append("\"");
    if same_path(d.relative.as_str(), current) {
        out.append(" aria-current=\"page\"");
    }
    out.append(">");
    out.append(encode_text(d.title.as_str()).as_str());
    out.append("</a>");
}

/// The site's list of documents, with `current` marked (see `navigation_of`).
pub fn render_navigation(documents: &Vec<SiteDocument>, current: &str) -> (r: String)
    ensures
        r@ == navigation_of(documents@, current@),
{
    let mut out = String::new();
    let mut k: usize = 0;
    while k < documents.len()
        invariant
            k <= documents@.len(),
            out@ == navigation_of(documents@.take(k as int), current@),
        decreases documents@.len() - k,
    {
        push_nav_link(&mut out, &documents[k], current);
        assert(documents@.take(k + 1).drop_last() == documents@.take(k as int));
        k = k + 1;
    }
    assert(documents@.take(documents@.len() as int) == documents@);
    out
}

/// The page of one document: its rendered HTML within the site's frame, with the list
/// of documents (`navigation`, already rendered), the root's name and the revision.
pub open spec fn document_page_of(
    root_name: Seq<char>,
    title: Seq<char>,
    relative: Seq<char>,
    navigation: Seq<char>,
    revision: u64,
    document_html: Seq<char>,
) -> Seq<char> {
    "<!doctype html>\n<html lang=\"en\">\n<head>\n  <meta charset=\"utf-8\">\n  <meta name=\"viewport\" content=\"width=device-width, initial-scale=1\">\n  <meta name=\"color-scheme\" content=\"light dark\">\n  <title>"@ + escaped_text(title) + " · "@ + escaped_text(root_name) + "</title>\n  <link rel=\"stylesheet\" href=\"/static/web.css\">\n  <script src=\"/static/web.js\" defer></script>\n</head>\n<body data-revision=\""@ + dec(revision as nat) + "\" data-nav-open=\"false\">\n  <header class=\"topbar\">\n    <button class=\"menu-button\" type=\"button\" data-menu-toggle aria-label=\"Open document navigation\" aria-controls=\"doc-navigation\" aria-expanded=\"false\">☰</button>\n    <a class=\"brand\" href=\"/\"><span class=\"brand-mark\">G</span> Glow</a>\n    <span></span>\n  </header>\n  <div class=\"layout\">\n    <aside class=\"nav-panel\" id=\"doc-navigation\">\n      <a class=\"brand\" href=\"/\"><span class=\"brand-mark\">G</span> Glow Docs</a>\n      <span class=\"root-label\" title=\""@ + escaped_attr(root_name) + "\">"@ + escaped_text(root_name) + "</span>\n      <div class=\"search-wrap\"><input class=\"doc-search\" type=\"search\" data-doc-search placeholder=\"Search documents…\" aria-label=\"Search documents\"></div>\n      <div class=\"nav-heading\">Documents</div>\n      <nav class=\"doc-nav\" aria-label=\"Documents\">"@ + navigation + "</nav>\n    </aside>\n    <main class=\"content-shell\">\n      <div class=\"document-meta\">"@ + escaped_text(relative) + "</div>\n      <article class=\"document\" data-document>"@ + document_html + "</article>\n    </main>\n    <aside class=\"outline-panel\">\n      <div class=\"outline-heading\">On this page</div>\n      <nav class=\"outline\" data-outline aria-label=\"On this page\"></nav>\n    </aside>\n  </div>\n  <button class=\"theme-button\" type=\"button\" data-theme-toggle aria-label=\"Toggle color theme\">☾</button>\n</body>\n</html>"@
}

/// The page of the document `current` (see `document_page_of`), its list of documents
/// made of `navigation`.
pub fn render_document_page(
    root_name: &str,
    current: &SiteDocument,
    navigation: &Vec<SiteDocument>,
    revision: u64,
    document_html: &str,
) -> (r: String)
    ensures
        r@ == document_page_of(
            root_name@,
            current.title@,
            current.relative@,
            navigation_of(navigation@, current.relative@),
            revision,
            document_html@,
        ),
{
    let title = encode_text(current.title.as_str());
    let root_attr = encode_attribute(root_name);
    let root_text = encode_text(root_name);
    let relative = encode_text(current.relative.as_str());
    let navigation = render_navigation(navigation, current.relative.as_str());
    let mut out = String::new();
    out.append("<!doctype html>\n<html lang=\"en\">\n<head>\n  <meta charset=\"utf-8\">\n  <meta name=\"viewport\" content=\"width=device-width, initial-scale=1\">\n  <meta name=\"color-scheme\" content=\"light dark\">\n  <title>");
    out.append(title.as_str());
    out.append(" · ");
    out.append(root_text.as_str());
    out.append("</title>\n  <link rel=\"stylesheet\" href=\"/static/web.css\">\n  <script src=\"/static/web.js\" defer></script>\n</head>\n<body data-revision=\"");
    push_decimal(&mut out, revision);
    out.append("\" data-nav-open=\"false\">\n  <header class=\"topbar\">\n    <button class=\"menu-button\" type=\"button\" data-menu-toggle aria-label=\"Open document navigation\" aria-controls=\"doc-navigation\" aria-expanded=\"false\">☰</button>\n    <a class=\"brand\" href=\"/\"><span class=\"brand-mark\">G</span> Glow</a>\n    <span></span>\n  </header>\n  <div class=\"layout\">\n    <aside class=\"nav-panel\" id=\"doc-navigation\">\n      <a class=\"brand\" href=\"/\"><span class=\"brand-mark\">G</span> Glow Docs</a>\n      <span class=\"root-label\" title=\"");
    out.append(root_attr.as_str());
    out.append("\">");
    out.append(root_text.as_str());
    out.append("</span>\n      <div class=\"search-wrap\"><input class=\"doc-search\" type=\"search\" data-doc-search placeholder=\"Search documents…\" aria-label=\"Search documents\"></div>\n      <div class=\"nav-heading\">Documents</div>\n      <nav class=\"doc-nav\" aria-label=\"Documents\">");
    out.append(navigation.as_str());
    out.append("</nav>\n    </aside>\n    <main class=\"content-shell\">\n      <div class=\"document-meta\">");
    out.append(relative.as_str());
    out.append("</div>\n      <article class=\"document\" data-document>");
    out.append(document_html);
    out.append("</article>\n    </main>\n    <aside class=\"outline-panel\">\n      <div class=\"outline-heading\">On this page</div>\n      <nav class=\"outline\" data-outline aria-label=\"On this page\"></nav>\n    </aside>\n  </div>\n  <button class=\"theme-button\" type=\"button\" data-theme-toggle aria-label=\"Toggle color theme\">☾</button>\n</body>\n</html>");
    out
}

/// The page shown while the root holds no Markdown.
pub open spec fn empty_page_of(root_name: Seq<char>, revision: u64) -> Seq<char> {
    "<!doctype html>\n<html lang=\"en\"><head><meta charset=\"utf-8\"><meta name=\"viewport\" content=\"width=device-width, initial-scale=1\"><title>No Markdown · "@ + escaped_text(root_name) + "</title><link rel=\"stylesheet\" href=\"/static/web.css\"><script src=\"/static/web.js\" defer></script></head>\n<body data-revision=\""@ + dec(revision as nat) + "\"><main class=\"empty-state\"><span class=\"brand-mark\">G</span><h1>No Markdown yet</h1><p>Glow is watching <strong>"@ + escaped_text(root_name) + "</strong>. Add a Markdown file anywhere below this folder and this page will refresh.</p></main><button class=\"theme-button\" type=\"button\" data-theme-toggle aria-label=\"Toggle color theme\">☾</button></body></html>"@
}

pub fn render_empty_page(root_name: &str, revision: u64) -> (r: String)
    ensures
        r@ == empty_page_of(root_name@, revision),
{
    let root_text = encode_text(root_name);
    let mut out = String::new();
    out.append("<!doctype html>\n<html lang=\"en\"><head><meta charset=\"utf-8\"><meta name=\"viewport\" content=\"width=device-width, initial-scale=1\"><title>No Markdown · ");
    out.append(root_text.as_str());
    out.append("</title><link rel=\"stylesheet\" href=\"/static/web.css\"><script src=\"/static/web.js\" defer></script></head>\n<body data-revision=\"");
    push_decimal(&mut out, revision);
    out.append("\"><main class=\"empty-state\"><span class=\"brand-mark\">G</span><h1>No Markdown yet</h1><p>Glow is watching <strong>");
    out.append(root_text.as_str());
    out.append("</strong>. Add a Markdown file anywhere below this folder and this page will refresh.</p></main><button class=\"theme-button\" type=\"button\" data-theme-toggle aria-label=\"Toggle color theme\">☾</button></body></html>");
    out
}

/// The body of an error page with its title and explanation.
pub open spec fn error_page_of(title: Seq<char>, detail: Seq<char>) -> Seq<char> {
    "<!doctype html><html lang=\"en\"><head><meta charset=\"utf-8\"><meta name=\"viewport\" content=\"width=device-width, initial-scale=1\"><title>"@ + escaped_text(title) + "</title><link rel=\"stylesheet\" href=\"/static/web.css\"></head><body><main class=\"empty-state\"><span class=\"brand-mark\">G</span><h1>"@ + escaped_text(title) + "</h1><p>"@ + escaped_text(detail) + "</p><p><a href=\"/\">Back to documentation</a></p></main></body></html>"@
}

pub fn error_page_body(title: &str, detail: &str) -> (r: String)
    ensures
        r@ == error_page_of(title@, detail@),
{
    let t = encode_text(title);
    let d = encode_text(detail);
    let mut out = String::new();
    out.append("<!doctype html><html lang=\"en\"><head><meta charset=\"utf-8\"><meta name=\"viewport\" content=\"width=device-width, initial-scale=1\"><title>");
    out.append(t.as_str());
    out.append("</title><link rel=\"stylesheet\" href=\"/static/web.css\"></head><body><main class=\"empty-state\"><span class=\"brand-mark\">G</span><h1>");
    out.append(t.as_str());
    out.append("</h1><p>");
    out.append(d.as_str());
    out.append("</p><p><a href=\"/\">Back to documentation</a></p></main></body></html>");
    out
}

// ---------------------------------------------------------------- server settings

/// The policy every page is served under.
pub const CONTENT_SECURITY_POLICY: &'static str = "default-src 'none'; base-uri 'none'; connect-src 'self'; font-src 'self'; form-action 'none'; frame-ancestors 'none'; img-src 'self' data:; object-src 'self'; script-src 'self'; style-src 'self'";

/// The policy assets are served under: sandboxed, no scripts.
pub const ASSET_CONTENT_SECURITY_POLICY: &'static str = "sandbox; default-src 'none'; img-src 'self' data:; style-src 'unsafe-inline'";

/// The headers every response carries unless it set them itself, names in lower case.
pub open spec fn security_headers_of() -> Seq<(Seq<char>, Seq<char>)> {
    seq![
        ("content-security-policy"@, CONTENT_SECURITY_POLICY@),
        ("x-content-type-options"@, "nosniff"@),
        ("referrer-policy"@, "no-referrer"@),
        ("x-frame-options"@, "DENY"@),
        ("cache-control"@, "no-store"@),
        ("permissions-policy"@, "camera=(), geolocation=(), microphone=(), payment=(), usb=()"@),
        ("cross-origin-opener-policy"@, "same-origin"@),
        ("cross-origin-resource-policy"@, "same-origin"@),
    ]
}

pub open spec fn pair_views(v: Seq<(String, String)>) -> Seq<(Seq<char>, Seq<char>)> {
    v.map_values(|p: (String, String)| (p.0@, p.1@))
}

/// The security headers, in order, whose names are not among `present`.
pub open spec fn missing_headers_of(present: Seq<Seq<char>>) -> Seq<(Seq<char>, Seq<char>)> {
    security_headers_of().filter(|h: (Seq<char>, Seq<char>)| !present.contains(h.0))
}

fn header_pair(name: &str, value: &str) -> (r: (String, String))
    ensures
        r.0@ == name@,
        r.1@ == value@,
{
    (String::from_str(name), String::from_str(value))
}

fn security_header_list() -> (r: Vec<(String, String)>)
    ensures
        pair_views(r@) == security_headers_of(),
{
    let mut v: Vec<(String, String)> = Vec::new();
    v.push(header_pair("content-security-policy", CONTENT_SECURITY_POLICY));
    v.push(header_pair("x-content-type-options", "nosniff"));
    v.push(header_pair("referrer-policy", "no-referrer"));
    v.push(header_pair("x-frame-options", "DENY"));
    v.push(header_pair("cache-control", "no-store"));
    v.push(header_pair("permissions-policy", "camera=(), geolocation=(), microphone=(), payment=(), usb=()"));
    v.push(header_pair("cross-origin-opener-policy", "same-origin"));
    v.push(header_pair("cross-origin-resource-policy", "same-origin"));
    assert(pair_views(v@) =~= security_headers_of());
    v
}

fn among(present: &Vec<String>, name: &str) -> (r: bool)
    ensures
        r == string_views(present@).contains(name@),
{
    let nc = chars_of(name);
    let mut i: usize = 0;
    while i < present.len()
        invariant
            i <= present@.len(),
            nc@ == name@,
            forall|j: int| 0 <= j < i ==> present@[j]@ != name@,
        decreases present@.len() - i,
    {
        let pc = chars_of(present[i].as_str());
        if same_chars(pc.as_slice(), nc.as_slice()) {
            assert(string_views(present@)[i as int] == name@);
            return true;
        }
        i = i + 1;
    }
    assert forall|j: int| 0 <= j < string_views(present@).len() implies string_views(present@)[j] != name@ by {
        assert(string_views(present@)[j] == present@[j]@);
    }
    false
}

/// The security headers to add to a response that already has the headers `present`
/// (names in lower case).
pub fn missing_security_headers(present: &Vec<String>) -> (r: Vec<(String, String)>)
    ensures
        pair_views(r@) == missing_headers_of(string_views(present@)),
{
    let all = security_header_list();
    let ghost views = pair_views(all@);
    let ghost p = string_views(present@);
    let ghost keep = |h: (Seq<char>, Seq<char>)| !p.contains(h.0);
    let mut out: Vec<(String, String)> = Vec::new();
    let mut k: usize = 0;
    while k < all.len()
        invariant
            k <= all@.len(),
            views == pair_views(all@),
            p == string_views(present@),
            keep == (|h: (Seq<char>, Seq<char>)| !p.contains(h.0)),
            pair_views(out@) == views.take(k as int).filter(keep),
        decreases all@.len() - k,
    {
        let ghost before = pair_views(out@);
        proof {
            assert(views.take(k + 1) == views.take(k as int).push(views[k as int]));
            views.take(k as int).lemma_filter_push(views[k as int], keep);
        }
        if !among(present, all[k].0.as_str()) {
            out.push((all[k].0.clone(), all[k].1.clone()));
            assert(pair_views(out@) == before.push(views[k as int]));
        } else {
            assert(pair_views(out@) == before);
        }
        k = k + 1;
    }
    assert(views.take(all@.len() as int) == views);
    out
}

/// How often the site's files are scanned for changes: as asked, but not more often
/// than every 250 ms.
pub fn poll_interval_ms(requested_ms: u64) -> (r: u64)
    ensures
        r == if requested_ms < 250 {
            250
        } else {
            requested_ms
        },
{
    if requested_ms < 250 {
        250
    } else {
        requested_ms
    }
}

// ---------------------------------------------------------------- laws

/// A request path names an index key only when that key is relative, free of backslashes
/// and NULs, and made of segments none of which is empty, `.` or `..`: no request reaches
/// outside the documentation root or around the separators.
pub proof fn lemma_route_keys_stay_in_root(uri_path: Seq<char>, prefix: Seq<char>, key: Seq<char>)
    requires
        route_key_of(uri_path, prefix) == Some(key),
    ensures
        key.len() > 0,
        key[0] != '/',
        !key.contains('\\'),
        !key.contains('\0'),
        forall|k: int| 0 <= k < pieces_from(key, 0).len() ==> {
            let p = #[trigger] pieces_from(key, 0)[k];
            p.len() > 0 && p != "."@ && p != ".."@
        },
{
    assert forall|k: int| 0 <= k < pieces_from(key, 0).len() implies {
        let p = #[trigger] pieces_from(key, 0)[k];
        p.len() > 0 && p != "."@ && p != ".."@
    } by {
        assert(plain_segment(pieces_from(key, 0)[k]));
    }
}

/// Every response carries every security header: those it set itself, and the ones
/// `missing_security_headers` adds.
pub proof fn lemma_security_headers_complete(present: Seq<Seq<char>>)
    ensures
        forall|i: int| 0 <= i < security_headers_of().len() ==> {
            let h = #[trigger] security_headers_of()[i];
            present.contains(h.0) || missing_headers_of(present).contains(h)
        },
{
    let keep = |h: (Seq<char>, Seq<char>)| !present.contains(h.0);
    assert forall|i: int| 0 <= i < security_headers_of().len() implies {
        let h = #[trigger] security_headers_of()[i];
        present.contains(h.0) || missing_headers_of(present).contains(h)
    } by {
        let h = security_headers_of()[i];
        if !present.contains(h.0) {
            security_headers_of().lemma_filter_contains(keep, i);
        }
    }
}

// ---------------------------------------------------------------- options

/// Local website settings.
#[derive(Clone, Debug)]
pub struct ServeOptions {
    /// Directory used as the documentation root.
    pub root: String,
    /// Interface to bind; the IPv4 loopback address unless changed.
    pub bind_ip: crate::cli::IpAddress,
    /// Port to bind; zero asks the system for a free one.
    pub port: u16,
    /// Include hidden paths while building the allowlists.
    pub include_hidden: bool,
    /// Apply `.gitignore`, the global gitignore and git's exclude rules.
    pub respect_gitignore: bool,
    /// Time between scans of the root, in milliseconds.
    pub poll_interval_ms: u64,
}

impl ServeOptions {
    pub fn new(root: String) -> (o: ServeOptions)
        ensures
            o.root == root,
            o.bind_ip == crate::cli::IpAddress::V4(127, 0, 0, 1),
            o.port == 0,
            !o.include_hidden,
            o.respect_gitignore,
            o.poll_interval_ms == 900,
    {
        ServeOptions {
            root,
            bind_ip: crate::cli::IpAddress::V4(127, 0, 0, 1),
            port: 0,
            include_hidden: false,
            respect_gitignore: true,
            poll_interval_ms: 900,
        }
    }

    pub fn with_port(self, port: u16) -> (o: ServeOptions)
        ensures
            o == (ServeOptions { port, ..self }),
    {
        ServeOptions { port, ..self }
    }

    pub fn with_bind_ip(self, bind_ip: crate::cli::IpAddress) -> (o: ServeOptions)
        ensures
            o == (ServeOptions { bind_ip, ..self }),
    {
        ServeOptions { bind_ip, ..self }
    }

    pub fn with_hidden(self, include_hidden: bool) -> (o: ServeOptions)
        ensures
            o == (ServeOptions { include_hidden, ..self }),
    {
        ServeOptions { include_hidden, ..self }
    }
}

/// Settings for a local server shared through a Cloudflare Quick Tunnel.
#[derive(Clone, Debug)]
pub struct ShareOptions {
    pub server: ServeOptions,
    pub tunnel: crate::tunnel::TunnelOptions,
    /// Open the public URL in the system browser once it is known.
    pub open_browser: bool,
}

impl ShareOptions {
    pub fn new(root: String) -> (o: ShareOptions)
        ensures
            o.server.root == root,
            o.server.bind_ip == crate::cli::IpAddress::V4(127, 0, 0, 1),
            o.server.port == 0,
            !o.server.include_hidden,
            o.server.respect_gitignore,
            o.server.poll_interval_ms == 900,
            o.tunnel.executable@ == "cloudflared"@,
            o.tunnel.startup_timeout_secs == 30,
            !o.open_browser,
    {
        ShareOptions {
            server: ServeOptions::new(root),
            tunnel: crate::tunnel::TunnelOptions::default(),
            open_browser: false,
        }
    }

    /// The settings sharing runs with: whatever was asked, the server binds to loopback
    /// only, the one address the tunnel forwards to.
    pub fn loopback_only(self) -> (o: ShareOptions)
        ensures
            o.server == (ServeOptions { bind_ip: crate::cli::IpAddress::V4(127, 0, 0, 1), ..self.server }),
            o.tunnel == self.tunnel,
            o.open_browser == self.open_browser,
    {
        let server = self.server.with_bind_ip(crate::cli::IpAddress::V4(127, 0, 0, 1));
        ShareOptions { server, tunnel: self.tunnel, open_browser: self.open_browser }
    }
}

// ---------------------------------------------------------------- routes lead back

proof fn lemma_find_from_is(s: Seq<char>, c: char, i: int, k: int)
    requires
        0 <= i <= k <= s.len(),
        forall|j: int| i <= j < k ==> s[j] != c,
        k == s.len() || s[k] == c,
    ensures
        find_from(s, c, i) == k,
{
    lemma_find_from_bounds(s, c, i);
    let f = find_from(s, c, i);
    if f < k {
        assert(s[f] == c);
    } else if f > k {
        assert(s[k] != c);
    }
}

/// The normal components of a path are not empty, not `.`, and hold no `/`.
proof fn lemma_component_shape(s: Seq<char>, i: int)
    ensures
        forall|k: int|
            0 <= k < comps_from_len(s, i) ==> {
                let c = #[trigger] crate::paths::comps_from(s, i)[k];
                c.len() > 0 && c != seq!['.'] && !c.contains('/')
            },
    decreases s.len() - i + 1,
{
    if 0 <= i <= s.len() {
        lemma_find_from_bounds(s, '/', i);
        let e = find_from(s, '/', i);
        let seg = s.subrange(i, e);
        if e < s.len() {
            lemma_component_shape(s, e + 1);
        }
        assert(!seg.contains('/')) by {
            assert forall|j: int| 0 <= j < seg.len() implies seg[j] != '/' by {
                assert(seg[j] == s[i + j]);
            }
        }
        let rest = if e < s.len() { crate::paths::comps_from(s, e + 1) } else { seq![] };
        if !(seg.len() == 0 || seg == seq!['.']) {
            assert forall|k: int| 0 <= k < comps_from_len(s, i) implies {
                let c = #[trigger] crate::paths::comps_from(s, i)[k];
                c.len() > 0 && c != seq!['.'] && !c.contains('/')
            } by {
                if k > 0 {
                    assert(crate::paths::comps_from(s, i)[k] == rest[k - 1]);
                }
            }
        }
    }
}

pub open spec fn comps_from_len(s: Seq<char>, i: int) -> int {
    crate::paths::comps_from(s, i).len() as int
}

proof fn lemma_pieces_append(x: Seq<char>, y: Seq<char>, i: int)
    requires
        0 <= i <= x.len(),
        !y.contains('/'),
    ensures
        pieces_from(x + seq!['/'] + y, i) == pieces_from(x, i) + seq![y],
    decreases x.len() - i,
{
    let s = x + seq!['/'] + y;
    lemma_find_from_bounds(x, '/', i);
    let ex = find_from(x, '/', i);
    assert forall|j: int| i <= j < ex implies s[j] != '/' by {
        assert(s[j] == x[j]);
    }
    if ex < x.len() {
        assert(s[ex] == x[ex]);
        lemma_find_from_is(s, '/', i, ex);
        assert(s.subrange(i, ex) =~= x.subrange(i, ex));
        lemma_pieces_append(x, y, ex + 1);
        assert(seq![x.subrange(i, ex)] + (pieces_from(x, ex + 1) + seq![y]) =~= seq![x.subrange(i, ex)]
            + pieces_from(x, ex + 1) + seq![y]);
    } else {
        assert(s[x.len() as int] == '/');
        lemma_find_from_is(s, '/', i, x.len() as int);
        assert(s.subrange(i, x.len() as int) =~= x.subrange(i, x.len() as int));
        let j0: int = (x.len() + 1) as int;
        assert forall|j: int| j0 <= j < s.len() implies s[j] != '/' by {
            assert(s[j] == y[j - j0]);
        }
        lemma_find_from_is(s, '/', j0, s.len() as int);
        assert(s.subrange(j0, s.len() as int) =~= y);
        assert(pieces_from(s, j0) == seq![y]);
    }
}

proof fn lemma_pieces_of_join(c: Seq<Seq<char>>)
    requires
        c.len() >= 1,
        forall|k: int| 0 <= k < c.len() ==> !(#[trigger] c[k]).contains('/'),
    ensures
        pieces_from(join_with(c, seq!['/']), 0) == c,
        forall|x: char| x != '/' && (forall|k: int| 0 <= k < c.len() ==> !(#[trigger] c[k]).contains(x)) ==> !join_with(
            c,
            seq!['/'],
        ).contains(x),
    decreases c.len(),
{
    let j = join_with(c, seq!['/']);
    if c.len() == 1 {
        assert(j == c[0]);
        assert forall|q: int| 0 <= q < j.len() implies j[q] != '/' by {
            if j[q] == '/' {
                assert(c[0].contains('/'));
            }
        }
        lemma_find_from_is(j, '/', 0, j.len() as int);
        assert(j.subrange(0, j.len() as int) =~= j);
        assert(pieces_from(j, 0) =~= seq![c[0]]);
    } else {
        let init = c.drop_last();
        let last = c.last();
        assert(!last.contains('/')) by {
            assert(last == c[c.len() - 1]);
        }
        assert forall|k: int| 0 <= k < init.len() implies !(#[trigger] init[k]).contains('/') by {
            assert(init[k] == c[k]);
        }
        lemma_pieces_of_join(init);
        let j1 = join_with(init, seq!['/']);
        assert(j == j1 + seq!['/'] + last);
        lemma_pieces_append(j1, last, 0);
        assert(init + seq![last] =~= c);
        assert forall|x: char|
            x != '/' && (forall|k: int| 0 <= k < c.len() ==> !(#[trigger] c[k]).contains(x)) implies !j.contains(x) by {
            assert forall|k: int| 0 <= k < init.len() implies !(#[trigger] init[k]).contains(x) by {
                assert(init[k] == c[k]);
            }
            assert(last == c[c.len() - 1]);
            if j.contains(x) {
                let q = choose|q: int| 0 <= q < j.len() && j[q] == x;
                if q < j1.len() {
                    assert(j1[q] == x);
                    assert(j1.contains(x));
                } else if q > j1.len() {
                    assert(last[q - j1.len() - 1] == x);
                    assert(last.contains(x));
                    assert(!c[c.len() - 1].contains(x));
                }
            }
        }
    }
}

/// A document's route leads back to it: the request path `/doc/` and its route names the
/// index key of its relative path, wherever that path has one. So two paths with
/// different keys have different routes.
pub proof fn lemma_routes_lead_back(rel: Seq<char>)
    requires
        relative_key_of(rel) is Some,
    ensures
        route_key_of("/doc/"@ + crate::document::route_of(rel), "/doc/"@) == relative_key_of(rel),
        percent_decoded(encode_utf8(crate::document::route_of(rel))) == encode_utf8(relative_key_of(rel)->0),
{
    let c = components(rel);
    reveal_strlit("/");
    reveal_strlit("/doc/");
    reveal_strlit(".");
    assert("/"@ =~= seq!['/']);
    let key = join_with(c, seq!['/']);
    assert(relative_key_of(rel) == Some(key));
    let route = crate::document::route_of(rel);
    crate::document::lemma_route_decodes(c);
    let uri = "/doc/"@ + route;
    assert(uri.subrange(0, 5) =~= "/doc/"@);
    assert("/doc/"@.is_prefix_of(uri));
    assert(uri.skip(5) =~= route);
    vstd::utf8::is_ascii_chars_encode_utf8(route);
    assert(encode_utf8(route) =~= crate::document::ascii_bytes(route));
    let bytes = percent_decoded(encode_utf8(route));
    assert(bytes == encode_utf8(key));
    vstd::utf8::encode_utf8_valid_utf8(key);
    vstd::utf8::encode_utf8_decode_utf8(key);
    lemma_component_shape(rel, 0);
    assert forall|k: int| 0 <= k < c.len() implies !(#[trigger] c[k]).contains('/') by {
        assert(c[k] == crate::paths::comps_from(rel, 0)[k]);
    }
    lemma_pieces_of_join(c);
    assert("."@ =~= seq!['.']);
    assert forall|k: int| 0 <= k < c.len() implies plain_segment(#[trigger] c[k]) by {
        assert(c[k] == crate::paths::comps_from(rel, 0)[k]);
        assert(key_component(c[k]));
        assert(c[k].len() > 0 && c[k] != seq!['.']);
    }
    assert(all_plain(pieces_from(key, 0)));
    assert(!key.contains('\\'));
    assert(!key.contains('\0'));
    lemma_find_from_bounds(key, '/', 0);
    assert(pieces_from(key, 0)[0] == key.subrange(0, find_from(key, '/', 0)));
    assert(c[0] == crate::paths::comps_from(rel, 0)[0]);
    assert(find_from(key, '/', 0) > 0);
    assert(safe_route(key));
}

proof fn lemma_join_slash_is_join(parts: Seq<Seq<char>>)
    ensures
        crate::document::join_slash(parts) == join_with(parts, seq!['/']),
    decreases parts.len(),
{
    if parts.len() > 1 {
        lemma_join_slash_is_join(parts.drop_last());
    }
}

/// The shape of a document's route: it holds only ASCII letters and digits and `*`, `.`,
/// `_`, `-`, `%` and `/`; split at `/` it has one segment per component of the path, and
/// each segment percent-decodes to the UTF-8 bytes of its component.
pub proof fn lemma_route_segments(rel: Seq<char>)
    requires
        relative_key_of(rel) is Some,
    ensures
        crate::document::route_chars_only(crate::document::route_of(rel)),
        pieces_from(crate::document::route_of(rel), 0).len() == components(rel).len(),
        forall|i: int|
            0 <= i < components(rel).len() ==> percent_decoded(
                encode_utf8(#[trigger] pieces_from(crate::document::route_of(rel), 0)[i]),
            ) == encode_utf8(components(rel)[i]),
{
    let c = components(rel);
    let e = c.map_values(|x: Seq<char>| crate::document::encode_segment(x));
    crate::document::lemma_route_decodes(c);
    assert forall|k: int| 0 <= k < e.len() implies !(#[trigger] e[k]).contains('/') by {
        crate::document::lemma_route_segment(encode_utf8(c[k]));
    }
    lemma_join_slash_is_join(e);
    lemma_pieces_of_join(e);
    assert forall|i: int|
        0 <= i < c.len() implies percent_decoded(encode_utf8(#[trigger] pieces_from(crate::document::route_of(rel), 0)[i]))
        == encode_utf8(c[i]) by {
        crate::document::lemma_route_segment(encode_utf8(c[i]));
        crate::document::lemma_ascii_encoding(e[i]);
    }
}

/// Documents with different index keys have different routes.
pub proof fn lemma_routes_are_distinct(a: Seq<char>, b: Seq<char>)
    requires
        relative_key_of(a) is Some,
        relative_key_of(b) is Some,
        relative_key_of(a) != relative_key_of(b),
    ensures
        crate::document::route_of(a) != crate::document::route_of(b),
{
    lemma_routes_lead_back(a);
    lemma_routes_lead_back(b);
}

/// The asset types served, by lower-cased extension.
pub open spec fn asset_type_table() -> Seq<(Seq<char>, Seq<char>)> {
    seq![
        (seq!['a', 'v', 'i', 'f'], "image/avif"@),
        (seq!['b', 'm', 'p'], "image/bmp"@),
        (seq!['g', 'i', 'f'], "image/gif"@),
        (seq!['i', 'c', 'o'], "image/x-icon"@),
        (seq!['j', 'p', 'e', 'g'], "image/jpeg"@),
        (seq!['j', 'p', 'g'], "image/jpeg"@),
        (seq!['p', 'n', 'g'], "image/png"@),
        (seq!['s', 'v', 'g'], "image/svg+xml"@),
        (seq!['w', 'e', 'b', 'p'], "image/webp"@),
        (seq!['p', 'd', 'f'], "application/pdf"@),
    ]
}

/// Every image and PDF extension of the table, in any ASCII case, gives its content type,
/// and nothing else is served: a file is an asset exactly when its extension, lower-cased,
/// is in the table, and then its type is the table's.
pub proof fn lemma_asset_types_follow_the_table(path: Seq<char>)
    ensures
        asset_content_type_of(path) is Some <==> (file_name(path) matches Some(n) && extension_of(n) matches Some(e)
            && exists|k: int| 0 <= k < asset_type_table().len() && ascii_lower(e) == #[trigger] asset_type_table()[k].0),
        forall|k: int|
            0 <= k < asset_type_table().len() && (file_name(path) matches Some(n) && extension_of(n) matches Some(e)
                && ascii_lower(e) == #[trigger] asset_type_table()[k].0) ==> asset_content_type_of(path) == Some(
                asset_type_table()[k].1,
            ),
{
    reveal_strlit("avif");
    reveal_strlit("bmp");
    reveal_strlit("gif");
    reveal_strlit("ico");
    reveal_strlit("jpeg");
    reveal_strlit("jpg");
    reveal_strlit("png");
    reveal_strlit("svg");
    reveal_strlit("webp");
    reveal_strlit("pdf");
    let t = asset_type_table();
    assert(t[0].0 == "avif"@ && t[1].0 == "bmp"@ && t[2].0 == "gif"@ && t[3].0 == "ico"@ && t[4].0 == "jpeg"@);
    assert(t[5].0 == "jpg"@ && t[6].0 == "png"@ && t[7].0 == "svg"@ && t[8].0 == "webp"@ && t[9].0 == "pdf"@);
    match file_name(path) {
        None => {},
        Some(n) => match extension_of(n) {
            None => {},
            Some(e) => {
                let x = ascii_lower(e);
                if asset_content_type_of(path) is Some {
                    if x == "avif"@ {
                        assert(x == t[0].0);
                    } else if x == "bmp"@ {
                        assert(x == t[1].0);
                    } else if x == "gif"@ {
                        assert(x == t[2].0);
                    } else if x == "ico"@ {
                        assert(x == t[3].0);
                    } else if x == "jpeg"@ {
                        assert(x == t[4].0);
                    } else if x == "jpg"@ {
                        assert(x == t[5].0);
                    } else if x == "png"@ {
                        assert(x == t[6].0);
                    } else if x == "svg"@ {
                        assert(x == t[7].0);
                    } else if x == "webp"@ {
                        assert(x == t[8].0);
                    } else {
                        assert(x == t[9].0);
                    }
                }
                assert forall|k: int| 0 <= k < t.len() && x == #[trigger] t[k].0 implies asset_content_type_of(path)
                    == Some(t[k].1) by {
                    assert(k == 0 || k == 1 || k == 2 || k == 3 || k == 4 || k == 5 || k == 6 || k == 7 || k == 8
                        || k == 9);
                    assert(x.len() == t[k].0.len());
                    if x.len() == 3 {
                        assert(x[0] == t[k].0[0] && x[1] == t[k].0[1]);
                    } else {
                        assert(x[0] == t[k].0[0] && x[1] == t[k].0[1]);
                    }
                }
            },
        },
    }
}

} // verus!

