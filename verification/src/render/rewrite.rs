//! The HTML renderer's pass over parse events: link and image destinations resolved to the
//! site's routes, raw HTML turned into text, and math and Mermaid blocks set aside in
//! numbered slots; and the last step, which fills the slots after sanitising.

use vstd::prelude::*;
use crate::calls::{allowed_tags_accepted, attributes_accepted, clean_document, cleaned_document, tag_attributes_accepted, events_html, html_of_events, markdown_events, tag_attribute_views, push_char, lossy_decoded, percent_decode_lossy, percent_decoded};
use crate::discover::comps_of_chars;
use crate::document::{strip_frontmatter, stripped_frontmatter, encode_segment, encode_segment_exec, is_markdown, is_markdown_path};
use crate::order::char_lists;
use crate::paths::components;
use crate::render::markdown::{parsed_markdown, MARKDOWN_OPTIONS, events_view, EventV, MdEvent, MdTag, MdTagEnd, TagV};
use crate::render::mermaid_info;
use crate::text::{range_is, dec, push_decimal,
    chars_of, join_strings, join_with, push_range, range_starts_with, string_of, string_views,
    trim, trim_bounds, CharSet,
};
use vstd::string::StringSliceAdditionalSpecFns;
use vstd::utf8::encode_utf8;

verus! {

// ---------------------------------------------------------------- destinations

/// Destinations written out as they stand: fragments, web and mail links, phone numbers.
pub open spec fn kept_destination(t: Seq<char>) -> bool {
    ||| "#"@.is_prefix_of(t)
    ||| "http://"@.is_prefix_of(t)
    ||| "https://"@.is_prefix_of(t)
    ||| "mailto:"@.is_prefix_of(t)
    ||| "tel:"@.is_prefix_of(t)
}

/// Destinations refused outright: protocol-relative URLs and text holding a NUL.
pub open spec fn refused_destination(t: Seq<char>) -> bool {
    "//"@.is_prefix_of(t) || t.contains('\0')
}

/// Index of the first `?` or `#` of `s` at or after `i`, or `s.len()`.
pub open spec fn suffix_start(s: Seq<char>, i: int) -> int
    decreases s.len() - i,
{
    if i < 0 || i >= s.len() {
        s.len() as int
    } else if s[i] == '?' || s[i] == '#' {
        i
    } else {
        suffix_start(s, i + 1)
    }
}

/// The components of the folder holding the document `current` (`Path::parent`), or
/// `None` where that folder is absolute, which no link may resolve into.
pub open spec fn parent_components(current: Seq<char>) -> Option<Seq<Seq<char>>> {
    let c = components(current);
    if c.len() == 0 {
        Some(seq![])
    } else if current[0] == '/' {
        None
    } else {
        Some(c.drop_last())
    }
}

/// `parts` applied in turn to `base`: `..` takes the last component off (refused where
/// there is none), any other component is appended.
pub open spec fn normalized_onto(base: Seq<Seq<char>>, parts: Seq<Seq<char>>) -> Option<Seq<Seq<char>>>
    decreases parts.len(),
{
    if parts.len() == 0 {
        Some(base)
    } else if parts[0] == ".."@ {
        if base.len() == 0 {
            None
        } else {
            normalized_onto(base.drop_last(), parts.drop_first())
        }
    } else {
        normalized_onto(base.push(parts[0]), parts.drop_first())
    }
}

/// The components that the path part of a relative link resolves to from the document
/// `current`: percent-decoded, joined to the document's folder and normalised; `None`
/// where it is absolute or climbs above the root.
pub open spec fn link_target(path_part: Seq<char>, current: Seq<char>) -> Option<Seq<Seq<char>>> {
    resolved_target(lossy_decoded(percent_decoded(encode_utf8(path_part))), current)
}

/// The components that a decoded relative link resolves to from the document `current`:
/// joined to the document's folder and normalised; `None` where it is absolute or climbs
/// above the root.
pub open spec fn resolved_target(decoded: Seq<char>, current: Seq<char>) -> Option<Seq<Seq<char>>> {
    if decoded.len() > 0 && decoded[0] == '/' {
        None
    } else {
        match parent_components(current) {
            Some(b) => normalized_onto(seq![], b + components(decoded)),
            None => None,
        }
    }
}

/// The site route of a decoded link with its query or fragment `suffix`: `/doc/` for a
/// Markdown link, `/asset/` otherwise, then the resolved path with each component
/// encoded; `#` where the link resolves to nothing.
pub open spec fn routed_destination(decoded: Seq<char>, suffix: Seq<char>, current: Seq<char>, image: bool) -> Seq<char> {
    match resolved_target(decoded, current) {
        None => "#"@,
        Some(n) => (if !image && is_markdown_path(join_with(n, "/"@)) {
            "/doc/"@
        } else {
            "/asset/"@
        }) + join_with(n.map_values(|c: Seq<char>| encode_segment(c)), "/"@) + suffix,
    }
}

/// Where a link (or, with `image`, an image) of the document `current` points on the
/// site: kept destinations as they are (trimmed); refused ones and those that leave the
/// root as `#`; others as `/doc/` (Markdown links) or `/asset/` followed by the resolved
/// path, each component encoded, and the query or fragment of the destination.
pub open spec fn rewritten_destination(destination: Seq<char>, current: Seq<char>, image: bool) -> Seq<char> {
    let t = trim(destination);
    if kept_destination(t) {
        t
    } else if refused_destination(t) {
        "#"@
    } else {
        let k = suffix_start(t, 0);
        routed_destination(lossy_decoded(percent_decoded(encode_utf8(t.take(k)))), t.skip(k), current, image)
    }
}

/// Whether `s[from..to]` begins with `p`.
fn range_has_prefix(s: &[char], from: usize, to: usize, p: &str) -> (r: bool)
    requires
        from <= to <= s@.len(),
    ensures
        r == p@.is_prefix_of(s@.subrange(from as int, to as int)),
{
    let pc = chars_of(p);
    let r = range_starts_with(s, from, to, pc.as_slice());
    proof {
        let t = s@.subrange(from as int, to as int);
        if pc@.len() <= to - from {
            assert(t.subrange(0, pc@.len() as int) == s@.subrange(from as int, from + pc@.len()));
        }
    }
    r
}

/// Whether `s[from..to]` holds `c`.
fn range_has_char(s: &[char], from: usize, to: usize, c: char) -> (r: bool)
    requires
        from <= to <= s@.len(),
    ensures
        r == s@.subrange(from as int, to as int).contains(c),
{
    let ghost t = s@.subrange(from as int, to as int);
    let mut i = from;
    while i < to
        invariant
            from <= i <= to <= s@.len(),
            t == s@.subrange(from as int, to as int),
            forall|j: int| from <= j < i ==> s@[j] != c,
        decreases to - i,
    {
        if s[i] == c {
            assert(t[i - from] == c);
            return true;
        }
        i = i + 1;
    }
    assert forall|j: int| 0 <= j < t.len() implies t[j] != c by {
        assert(t[j] == s@[from + j]);
    }
    false
}

/// Index in `s` of the first `?` or `#` of `s[from..to]`, or `to`.
fn suffix_index(s: &[char], from: usize, to: usize) -> (k: usize)
    requires
        from <= to <= s@.len(),
    ensures
        from <= k <= to,
        k - from == suffix_start(s@.subrange(from as int, to as int), 0),
{
    let ghost t = s@.subrange(from as int, to as int);
    let mut i = from;
    while i < to
        invariant
            from <= i <= to <= s@.len(),
            t == s@.subrange(from as int, to as int),
            suffix_start(t, 0) == suffix_start(t, i - from),
        decreases to - i,
    {
        assert(t[i - from] == s@[i as int]);
        if s[i] == '?' || s[i] == '#' {
            return i;
        }
        i = i + 1;
    }
    i
}

/// A destination cut before its first `?` or `#`: the path, then the query or fragment.
pub fn split_suffix(destination: &str) -> (r: (String, String))
    ensures
        r.0@ == destination@.take(suffix_start(destination@, 0)),
        r.1@ == destination@.skip(suffix_start(destination@, 0)),
{
    let c = chars_of(destination);
    let k = suffix_index(c.as_slice(), 0, c.len());
    assert(c@.subrange(0, c@.len() as int) == c@);
    (string_of(c.as_slice(), 0, k), string_of(c.as_slice(), k, c.len()))
}

/// The strings of the first `upto` character lists.
fn strings_of_lists(lists: &Vec<Vec<char>>, upto: usize) -> (v: Vec<String>)
    requires
        upto <= lists@.len(),
    ensures
        string_views(v@) == char_lists(lists@).take(upto as int),
{
    let mut v: Vec<String> = Vec::new();
    let mut k: usize = 0;
    while k < upto
        invariant
            k <= upto <= lists@.len(),
            string_views(v@) == char_lists(lists@).take(k as int),
        decreases upto - k,
    {
        let piece = string_of(lists[k].as_slice(), 0, lists[k].len());
        let ghost before = string_views(v@);
        v.push(piece);
        proof {
            assert(lists@[k as int]@.subrange(0, lists@[k as int]@.len() as int) == lists@[k as int]@);
            assert(string_views(v@) == before.push(piece@));
            assert(char_lists(lists@).take(k + 1) == char_lists(lists@).take(k as int).push(
                lists@[k as int]@,
            ));
        }
        k = k + 1;
    }
    v
}

/// The components of the folder of `current` (see `parent_components`).
fn parent_parts(current: &str) -> (r: Option<Vec<String>>)
    ensures
        match r {
            Some(v) => parent_components(current@) == Some(string_views(v@)),
            None => parent_components(current@) is None,
        },
{
    let cc = chars_of(current);
    let comps = comps_of_chars(cc.as_slice());
    if comps.len() == 0 {
        let v: Vec<String> = Vec::new();
        assert(string_views(v@) == Seq::<Seq<char>>::empty());
        return Some(v);
    }
    if cc[0] == '/' {
        return None;
    }
    let v = strings_of_lists(&comps, comps.len() - 1);
    proof {
        assert(char_lists(comps@).take(comps@.len() - 1) == components(current@).drop_last());
    }
    Some(v)
}

/// `parts` normalised from nothing (see `normalized_onto`).
fn normalize_parts(parts: &Vec<String>) -> (r: Option<Vec<String>>)
    ensures
        match r {
            Some(v) => normalized_onto(seq![], string_views(parts@)) == Some(string_views(v@)),
            None => normalized_onto(seq![], string_views(parts@)) is None,
        },
{
    let up = "..".to_owned();
    let ghost all = string_views(parts@);
    let mut out: Vec<String> = Vec::new();
    let mut k: usize = 0;
    assert(all.skip(0) == all);
    assert(string_views(out@) == Seq::<Seq<char>>::empty());
    while k < parts.len()
        invariant
            k <= parts@.len(),
            all == string_views(parts@),
            up@ == ".."@,
            normalized_onto(string_views(out@), all.skip(k as int)) == normalized_onto(seq![], all),
        decreases parts@.len() - k,
    {
        proof {
            assert(all.skip(k as int).drop_first() == all.skip(k + 1));
            assert(all.skip(k as int)[0] == parts@[k as int]@);
        }
        let ghost before = string_views(out@);
        if parts[k] == up {
            if out.len() == 0 {
                return None;
            }
            out.pop();
            assert(string_views(out@) == before.drop_last());
        } else {
            out.push(parts[k].clone());
            assert(string_views(out@) == before.push(parts@[k as int]@));
        }
        k = k + 1;
    }
    assert(all.skip(parts@.len() as int) == Seq::<Seq<char>>::empty());
    Some(out)
}

/// Each part encoded for a route (see `encode_segment`).
fn encoded_parts(parts: &Vec<String>) -> (v: Vec<String>)
    ensures
        string_views(v@) == string_views(parts@).map_values(|c: Seq<char>| encode_segment(c)),
{
    let mut v: Vec<String> = Vec::new();
    let mut k: usize = 0;
    while k < parts.len()
        invariant
            k <= parts@.len(),
            string_views(v@) == string_views(parts@).take(k as int).map_values(
                |c: Seq<char>| encode_segment(c),
            ),
        decreases parts@.len() - k,
    {
        let e = encode_segment_exec(parts[k].as_str());
        let ghost before = string_views(v@);
        v.push(e);
        proof {
            assert(string_views(v@) == before.push(e@));
            assert(string_views(parts@).take(k + 1) == string_views(parts@).take(k as int).push(
                parts@[k as int]@,
            ));
        }
        k = k + 1;
    }
    assert(string_views(parts@).take(parts@.len() as int) == string_views(parts@));
    v
}

/// Rewrites a link (or, with `image`, an image) destination of the document `current`
/// for the site (see `rewritten_destination`).
pub fn rewrite_destination(destination: &str, current: &str, image: bool) -> (r: String)
    ensures
        r@ == rewritten_destination(destination@, current@, image),
{
    let chars = chars_of(destination);
    let n = chars.len();
    let (a, b) = trim_bounds(chars.as_slice(), 0, n, CharSet::Whitespace);
    let ghost t = chars@.subrange(a as int, b as int);
    proof {
        assert(chars@.subrange(0, n as int) == chars@);
        assert(t == trim(destination@));
    }
    let s = chars.as_slice();
    if range_has_prefix(s, a, b, "#") || range_has_prefix(s, a, b, "http://")
        || range_has_prefix(s, a, b, "https://") || range_has_prefix(s, a, b, "mailto:")
        || range_has_prefix(s, a, b, "tel:") {
        return string_of(s, a, b);
    }
    if range_has_prefix(s, a, b, "//") || range_has_char(s, a, b, '\0') {
        return "#".to_owned();
    }
    let trimmed = string_of(s, a, b);
    let (path_part, suffix) = split_suffix(trimmed.as_str());
    let decoded = percent_decode_lossy(path_part.as_str());
    route_for_link(decoded.as_str(), suffix.as_str(), current, image)
}

/// The site route of a decoded link of the document `current`, its query or fragment
/// `suffix` kept (see `routed_destination`).
pub fn route_for_link(decoded: &str, suffix: &str, current: &str, image: bool) -> (r: String)
    ensures
        r@ == routed_destination(decoded@, suffix@, current@, image),
{
    let dchars = chars_of(decoded);
    if dchars.len() > 0 && dchars[0] == '/' {
        return "#".to_owned();
    }
    let mut parts = match parent_parts(current) {
        Some(p) => p,
        None => return "#".to_owned(),
    };
    let extra = comps_of_chars(dchars.as_slice());
    let mut more = strings_of_lists(&extra, extra.len());
    let ghost base = string_views(parts@);
    let ghost added = string_views(more@);
    parts.append(&mut more);
    proof {
        assert(char_lists(extra@).take(extra@.len() as int) == char_lists(extra@));
        assert(string_views(parts@) == base + added);
    }
    let normalized = match normalize_parts(&parts) {
        Some(v) => v,
        None => return "#".to_owned(),
    };
    let joined = join_strings(&normalized, "/");
    let markdown = is_markdown(joined.as_str());
    let encoded = join_strings(&encoded_parts(&normalized), "/");
    let mut out = if !image && markdown {
        "/doc/".to_owned()
    } else {
        "/asset/".to_owned()
    };
    out.append(encoded.as_str());
    out.append(suffix);
    out
}

// ---------------------------------------------------------------- events

/// A block set aside for the caller to render, with the marker that holds its place.
pub enum SlotRequest {
    /// A formula, inline or on its own line.
    Math { marker: String, source: String, display: bool },
    /// A Mermaid diagram.
    Mermaid { marker: String, source: String },
}

/// The model of a slot request.
pub enum SlotV {
    Math(Seq<char>, Seq<char>, bool),
    Mermaid(Seq<char>, Seq<char>),
}

impl View for SlotRequest {
    type V = SlotV;

    open spec fn view(&self) -> SlotV {
        match self {
            SlotRequest::Math { marker, source, display } => SlotV::Math(marker@, source@, *display),
            SlotRequest::Mermaid { marker, source } => SlotV::Mermaid(marker@, source@),
        }
    }
}

pub open spec fn slots_view(v: Seq<SlotRequest>) -> Seq<SlotV> {
    v.map_values(|s: SlotRequest| s@)
}

/// The placeholder of slot `index`: an empty `div` for blocks, an empty `span` otherwise.
pub open spec fn slot_marker(index: nat, block: bool) -> Seq<char> {
    if block {
        "<div id=\"glow-render-slot-"@ + dec(index) + "\"></div>"@
    } else {
        "<span id=\"glow-render-slot-"@ + dec(index) + "\"></span>"@
    }
}

fn slot_marker_text(index: usize, block: bool) -> (r: String)
    ensures
        r@ == slot_marker(index as nat, block),
{
    let mut r = if block {
        String::from_str("<div id=\"glow-render-slot-")
    } else {
        String::from_str("<span id=\"glow-render-slot-")
    };
    push_decimal(&mut r, index as u64);
    r.append(if block { "\"></div>" } else { "\"></span>" });
    r
}

/// One event as the HTML renderer passes it on: link and image destinations rewritten,
/// raw HTML as text.
pub open spec fn rewritten_event(e: EventV, current: Seq<char>) -> EventV {
    match e {
        EventV::Start(TagV::Link(email, d, t)) => EventV::Start(
            TagV::Link(email, rewritten_destination(d, current, false), t),
        ),
        EventV::Start(TagV::Image(d, t)) => EventV::Start(
            TagV::Image(rewritten_destination(d, current, true), t),
        ),
        EventV::Html(s) => EventV::Text(s),
        EventV::InlineHtml(s) => EventV::Text(s),
        _ => e,
    }
}

pub fn rewrite_event(e: MdEvent, current: &str) -> (r: MdEvent)
    ensures
        r@ == rewritten_event(e@, current@),
{
    match e {
        MdEvent::Start(MdTag::Link(email, d, t)) => {
            let d2 = rewrite_destination(d.as_str(), current, false);
            MdEvent::Start(MdTag::Link(email, d2, t))
        },
        MdEvent::Start(MdTag::Image(d, t)) => {
            let d2 = rewrite_destination(d.as_str(), current, true);
            MdEvent::Start(MdTag::Image(d2, t))
        },
        MdEvent::Html(s) => MdEvent::Text(s),
        MdEvent::InlineHtml(s) => MdEvent::Text(s),
        other => other,
    }
}

/// Index just past the `End(CodeBlock)` at or after `i`, or the end of `ev`.
pub open spec fn code_block_end(ev: Seq<EventV>, i: int) -> int
    decreases ev.len() - i,
{
    if i >= ev.len() {
        ev.len() as int
    } else if ev[i] == EventV::End(MdTagEnd::CodeBlock) {
        i + 1
    } else {
        code_block_end(ev, i + 1)
    }
}

pub proof fn lemma_code_block_end(ev: Seq<EventV>, i: int)
    requires
        0 <= i <= ev.len(),
    ensures
        i <= code_block_end(ev, i) <= ev.len(),
    decreases ev.len() - i,
{
    if i < ev.len() && ev[i] != EventV::End(MdTagEnd::CodeBlock) {
        lemma_code_block_end(ev, i + 1);
    }
}

/// What an event adds to the source of a code block: its text, or a line break.
pub open spec fn source_piece(e: EventV) -> Seq<char> {
    match e {
        EventV::Text(t) => t,
        EventV::Code(t) => t,
        EventV::InlineMath(t) => t,
        EventV::DisplayMath(t) => t,
        EventV::SoftBreak => seq!['\n'],
        EventV::HardBreak => seq!['\n'],
        _ => seq![],
    }
}

/// The source of the code block whose contents begin at `i`.
pub open spec fn code_block_text(ev: Seq<EventV>, i: int) -> Seq<char>
    decreases ev.len() - i,
{
    if i >= ev.len() || ev[i] == EventV::End(MdTagEnd::CodeBlock) {
        seq![]
    } else {
        source_piece(ev[i]) + code_block_text(ev, i + 1)
    }
}

/// The events from `i` on as the HTML renderer passes them on, and the slots they open,
/// numbered from `slot`: formulas and Mermaid blocks replaced by their slot's marker,
/// every other event rewritten (see `rewritten_event`).
pub open spec fn rewritten_from(ev: Seq<EventV>, current: Seq<char>, i: int, slot: nat) -> (Seq<EventV>, Seq<SlotV>)
    decreases ev.len() - i,
{
    if i < 0 || i >= ev.len() {
        (seq![], seq![])
    } else {
        let kept = rewritten_from(ev, current, i + 1, slot);
        let with_marker = rewritten_from(ev, current, i + 1, slot + 1);
        match ev[i] {
            EventV::InlineMath(s) => (
                seq![EventV::Html(slot_marker(slot, false))] + with_marker.0,
                seq![SlotV::Math(slot_marker(slot, false), s, false)] + with_marker.1,
            ),
            EventV::DisplayMath(s) => (
                seq![EventV::Html(slot_marker(slot, false))] + with_marker.0,
                seq![SlotV::Math(slot_marker(slot, false), s, true)] + with_marker.1,
            ),
            EventV::Start(TagV::CodeBlock(Some(info))) => if mermaid_info(info) {
                let j = code_block_end(ev, i + 1);
                proof {
                    lemma_code_block_end(ev, i + 1);
                }
                let after = rewritten_from(ev, current, j, slot + 1);
                (
                    seq![EventV::Html(slot_marker(slot, true))] + after.0,
                    seq![SlotV::Mermaid(slot_marker(slot, true), code_block_text(ev, i + 1))] + after.1,
                )
            } else {
                (seq![ev[i]] + kept.0, kept.1)
            },
            _ => (seq![rewritten_event(ev[i], current)] + kept.0, kept.1),
        }
    }
}

/// The events of `ev` from `ev.len() - stack.len()` on lie on `stack`, the next on top.
pub open spec fn stacked(stack: Seq<MdEvent>, ev: Seq<EventV>) -> bool {
    &&& stack.len() <= ev.len()
    &&& forall|j: int| 0 <= j < stack.len() ==> (#[trigger] stack[j])@ == ev[ev.len() - 1 - j]
}

/// Takes the source of a Mermaid block off `stack`, up to and including its end.
fn collect_code_block(stack: &mut Vec<MdEvent>, Ghost(ev): Ghost<Seq<EventV>>) -> (source: String)
    requires
        stacked(old(stack)@, ev),
    ensures
        stacked(final(stack)@, ev),
        final(stack)@.len() <= old(stack)@.len(),
        ev.len() - final(stack)@.len() == code_block_end(ev, ev.len() - old(stack)@.len()),
        source@ == code_block_text(ev, ev.len() - old(stack)@.len()),
{
    let ghost i0 = ev.len() - stack@.len();
    let mut source = String::new();
    let mut done = false;
    while !done && stack.len() > 0
        invariant
            stacked(stack@, ev),
            stack@.len() <= old(stack)@.len(),
            i0 == ev.len() - old(stack)@.len(),
            0 <= i0 <= ev.len() - stack@.len(),
            done ==> ev.len() - stack@.len() == code_block_end(ev, i0),
            !done ==> code_block_end(ev, ev.len() - stack@.len()) == code_block_end(ev, i0),
            done ==> source@ == code_block_text(ev, i0),
            !done ==> source@ + code_block_text(ev, ev.len() - stack@.len()) == code_block_text(ev, i0),
        decreases stack@.len(),
    {
        let ghost j = ev.len() - stack@.len();
        let ghost before = source@;
        let e = stack.pop().unwrap();
        assert(e@ == ev[j]);
        match e {
            MdEvent::End(MdTagEnd::CodeBlock) => {
                done = true;
            },
            MdEvent::Text(t) => source.append(t.as_str()),
            MdEvent::Code(t) => source.append(t.as_str()),
            MdEvent::InlineMath(t) => source.append(t.as_str()),
            MdEvent::DisplayMath(t) => source.append(t.as_str()),
            MdEvent::SoftBreak => push_char(&mut source, '\n'),
            MdEvent::HardBreak => push_char(&mut source, '\n'),
            _ => {},
        }
        proof {
            if !done {
                assert(source@ == before + source_piece(ev[j]));
                assert(before + code_block_text(ev, j) == before + (source_piece(ev[j]) + code_block_text(ev, j + 1)));
            } else {
                assert(code_block_text(ev, j) == Seq::<char>::empty());
                assert(before + Seq::<char>::empty() == before);
            }
        }
    }
    proof {
        if !done {
            assert(code_block_text(ev, ev.len() as int) == Seq::<char>::empty());
            assert(source@ + Seq::<char>::empty() == source@);
        }
    }
    source
}

/// The events as the HTML renderer passes them on, and the slots they open (see
/// `rewritten_from`).
pub fn rewrite_document_events(events: Vec<MdEvent>, current: &str) -> (r: (Vec<MdEvent>, Vec<SlotRequest>))
    ensures
        (events_view(r.0@), slots_view(r.1@)) == rewritten_from(events_view(events@), current@, 0, 0),
{
    let ghost ev = events_view(events@);
    let mut rest = events;
    let mut stack: Vec<MdEvent> = Vec::new();
    while rest.len() > 0
        invariant
            stack@.len() + rest@.len() == ev.len(),
            forall|j: int| 0 <= j < rest@.len() ==> (#[trigger] rest@[j])@ == ev[j],
            forall|j: int| 0 <= j < stack@.len() ==> (#[trigger] stack@[j])@ == ev[ev.len() - 1 - j],
        decreases rest@.len(),
    {
        let e = rest.pop().unwrap();
        stack.push(e);
    }
    let ghost total = rewritten_from(ev, current@, 0, 0);
    let mut out: Vec<MdEvent> = Vec::new();
    let mut slots: Vec<SlotRequest> = Vec::new();
    assert(events_view(out@) + total.0 == total.0);
    assert(slots_view(slots@) + total.1 == total.1);
    while stack.len() > 0
        invariant
            stacked(stack@, ev),
            total == rewritten_from(ev, current@, 0, 0),
            events_view(out@) + rewritten_from(ev, current@, ev.len() - stack@.len(), slots@.len()).0 == total.0,
            slots_view(slots@) + rewritten_from(ev, current@, ev.len() - stack@.len(), slots@.len()).1 == total.1,
        decreases stack@.len(),
    {
        let ghost i = ev.len() - stack@.len();
        let ghost n = slots@.len();
        let ghost out0 = events_view(out@);
        let ghost slots0 = slots_view(slots@);
        let e = stack.pop().unwrap();
        assert(e@ == ev[i]);
        let ghost step = rewritten_from(ev, current@, i, n);
        match e {
            MdEvent::InlineMath(source) => {
                let marker = slot_marker_text(slots.len(), false);
                out.push(MdEvent::Html(marker.clone()));
                slots.push(SlotRequest::Math { marker, source, display: false });
                proof {
                    let next = rewritten_from(ev, current@, i + 1, n + 1);
                    assert(events_view(out@) == out0.push(EventV::Html(slot_marker(n, false))));
                    assert(slots_view(slots@) == slots0.push(SlotV::Math(slot_marker(n, false), ev[i]->InlineMath_0, false)));
                    assert(out0 + step.0 == events_view(out@) + next.0);
                    assert(slots0 + step.1 == slots_view(slots@) + next.1);
                }
            },
            MdEvent::DisplayMath(source) => {
                let marker = slot_marker_text(slots.len(), false);
                out.push(MdEvent::Html(marker.clone()));
                slots.push(SlotRequest::Math { marker, source, display: true });
                proof {
                    let next = rewritten_from(ev, current@, i + 1, n + 1);
                    assert(events_view(out@) == out0.push(EventV::Html(slot_marker(n, false))));
                    assert(slots_view(slots@) == slots0.push(SlotV::Math(slot_marker(n, false), ev[i]->DisplayMath_0, true)));
                    assert(out0 + step.0 == events_view(out@) + next.0);
                    assert(slots0 + step.1 == slots_view(slots@) + next.1);
                }
            },
            MdEvent::Start(MdTag::CodeBlock(Some(info))) => {
                if crate::render::is_mermaid_language(info.as_str()) {
                    let source = collect_code_block(&mut stack, Ghost(ev));
                    let marker = slot_marker_text(slots.len(), true);
                    out.push(MdEvent::Html(marker.clone()));
                    slots.push(SlotRequest::Mermaid { marker, source });
                    proof {
                        let j = code_block_end(ev, i + 1);
                        let next = rewritten_from(ev, current@, j, n + 1);
                        assert(events_view(out@) == out0.push(EventV::Html(slot_marker(n, true))));
                        assert(slots_view(slots@) == slots0.push(SlotV::Mermaid(slot_marker(n, true), code_block_text(ev, i + 1))));
                        assert(out0 + step.0 == events_view(out@) + next.0);
                        assert(slots0 + step.1 == slots_view(slots@) + next.1);
                    }
                } else {
                    out.push(MdEvent::Start(MdTag::CodeBlock(Some(info))));
                    proof {
                        let next = rewritten_from(ev, current@, i + 1, n);
                        assert(events_view(out@) == out0.push(ev[i]));
                        assert(out0 + step.0 == events_view(out@) + next.0);
                        assert(slots0 + step.1 == slots_view(slots@) + next.1);
                    }
                }
            },
            other => {
                let r = rewrite_event(other, current);
                out.push(r);
                proof {
                    let next = rewritten_from(ev, current@, i + 1, n);
                    assert(events_view(out@) == out0.push(rewritten_event(ev[i], current@)));
                    assert(out0 + step.0 == events_view(out@) + next.0);
                    assert(slots0 + step.1 == slots_view(slots@) + next.1);
                }
            },
        }
    }
    proof {
        let fin = rewritten_from(ev, current@, ev.len() as int, slots@.len());
        assert(events_view(out@) + fin.0 == events_view(out@));
        assert(slots_view(slots@) + fin.1 == slots_view(slots@));
    }
    (out, slots)
}

/// The events of a Markdown document (its front matter taken off) as the HTML renderer
/// passes them on, and the slots they open, for the document at `current`.
pub fn prepare_document(markdown: &str, current: &str) -> (r: (Vec<MdEvent>, Vec<SlotRequest>))
    ensures
        (events_view(r.0@), slots_view(r.1@)) == rewritten_from(
            parsed_markdown(stripped_frontmatter(markdown@), MARKDOWN_OPTIONS),
            current@,
            0,
            0,
        ),
{
    let body = strip_frontmatter(markdown);
    let events = markdown_events(body.as_str(), MARKDOWN_OPTIONS);
    rewrite_document_events(events, current)
}

/// The web page's HTML of a document's prepared events, before sanitising, and the blocks
/// its slots stand for.
pub fn prepare_html(markdown: &str, current: &str) -> (r: (String, Vec<SlotRequest>))
    ensures
        r.0@ == html_of_events(
            rewritten_from(parsed_markdown(stripped_frontmatter(markdown@), MARKDOWN_OPTIONS), current@, 0, 0).0,
        ),
        slots_view(r.1@) == rewritten_from(
            parsed_markdown(stripped_frontmatter(markdown@), MARKDOWN_OPTIONS),
            current@,
            0,
            0,
        ).1,
{
    let (events, slots) = prepare_document(markdown, current);
    let html = events_html(&events);
    (html, slots)
}

// ---------------------------------------------------------------- filling the slots

/// A rendered block and the marker whose place it takes.
pub struct RenderSlot {
    pub marker: String,
    pub html: String,
}

pub open spec fn slot_pairs(v: Seq<RenderSlot>) -> Seq<(Seq<char>, Seq<char>)> {
    v.map_values(|s: RenderSlot| (s.marker@, s.html@))
}

/// `pat` stands in `s` at `i`.
pub open spec fn occurs_at(s: Seq<char>, pat: Seq<char>, i: int) -> bool {
    0 <= i && i + pat.len() <= s.len() && s.subrange(i, i + pat.len()) == pat
}

/// The first place at or after `i` where `pat` stands in `s`.
pub open spec fn first_match(s: Seq<char>, pat: Seq<char>, i: int) -> Option<int>
    decreases s.len() + 1 - i,
{
    if i < 0 || i + pat.len() > s.len() {
        None
    } else if occurs_at(s, pat, i) {
        Some(i)
    } else {
        first_match(s, pat, i + 1)
    }
}

/// `s` with its first `pat` replaced by `with` (`str::replacen` once).
pub open spec fn replaced_first(s: Seq<char>, pat: Seq<char>, with: Seq<char>) -> Seq<char> {
    match first_match(s, pat, 0) {
        Some(i) => s.take(i) + with + s.skip(i + pat.len()),
        None => s,
    }
}

/// `s` with each slot's marker, in turn, replaced by its HTML.
pub open spec fn filled(s: Seq<char>, slots: Seq<(Seq<char>, Seq<char>)>) -> Seq<char>
    decreases slots.len(),
{
    if slots.len() == 0 {
        s
    } else {
        filled(replaced_first(s, slots[0].0, slots[0].1), slots.drop_first())
    }
}

pub fn replace_first(s: &str, pat: &str, with: &str) -> (r: String)
    ensures
        r@ == replaced_first(s@, pat@, with@),
{
    let sc = chars_of(s);
    let pc = chars_of(pat);
    let n = sc.len();
    let m = pc.len();
    if m == 0 {
        proof {
            assert(s@.subrange(0, 0) =~= pat@);
            assert(occurs_at(s@, pat@, 0));
            assert(s@.take(0) + with@ + s@.skip(0) == with@ + s@);
        }
        let mut out = String::from_str(with);
        out.append(s);
        return out;
    }
    let mut i: usize = 0;
    while m <= n && i <= n - m
        invariant
            m >= 1,
            sc@ == s@,
            pc@ == pat@,
            n == sc@.len(),
            m == pc@.len(),
            first_match(s@, pat@, i as int) == first_match(s@, pat@, 0),
        decreases n + 1 - i,
    {
        if range_is(sc.as_slice(), i, i + m, pc.as_slice()) {
            let mut out = string_of(sc.as_slice(), 0, i);
            out.append(with);
            push_range(&mut out, sc.as_slice(), i + m, n);
            return out;
        }
        i = i + 1;
    }
    proof {
        if m <= n {
            assert(first_match(s@, pat@, i as int) is None);
        }
    }
    String::from_str(s)
}

/// The sanitiser's verdict on a rendered document: `ammonia`'s defaults, with task-list
/// check boxes, `class` and `id` attributes and code languages allowed, and relative URLs
/// passed through.
pub open spec fn document_sanitized(html: Seq<char>) -> Seq<char> {
    cleaned_document(
        seq!["input"@],
        seq!["class"@, "id"@],
        seq![("input"@, seq!["type"@, "checked"@, "disabled"@]), ("code"@, seq!["class"@])],
        html,
    )
}

/// Sanitises the HTML of a document and fills its slots, in order, with their blocks.
pub fn finish_document(rendered: &str, slots: &Vec<RenderSlot>) -> (r: String)
    ensures
        r@ == filled(document_sanitized(rendered@), slot_pairs(slots@)),
{
    let mut tags: Vec<String> = Vec::new();
    tags.push(String::from_str("input"));
    let mut attributes: Vec<String> = Vec::new();
    attributes.push(String::from_str("class"));
    attributes.push(String::from_str("id"));
    let mut input_attributes: Vec<String> = Vec::new();
    input_attributes.push(String::from_str("type"));
    input_attributes.push(String::from_str("checked"));
    input_attributes.push(String::from_str("disabled"));
    let mut code_attributes: Vec<String> = Vec::new();
    code_attributes.push(String::from_str("class"));
    let ghost input_view = string_views(input_attributes@);
    let ghost code_view = string_views(code_attributes@);
    let mut per_tag: Vec<(String, Vec<String>)> = Vec::new();
    per_tag.push((String::from_str("input"), input_attributes));
    per_tag.push((String::from_str("code"), code_attributes));
    proof {
        assert(string_views(tags@) =~= seq!["input"@]);
        assert(string_views(attributes@) =~= seq!["class"@, "id"@]);
        assert(input_view =~= seq!["type"@, "checked"@, "disabled"@]);
        assert(code_view =~= seq!["class"@]);
        assert(tag_attribute_views(per_tag@) =~= seq![
            ("input"@, seq!["type"@, "checked"@, "disabled"@]),
            ("code"@, seq!["class"@]),
        ]);
        reveal_strlit("script");
        reveal_strlit("style");
        reveal_strlit("rel");
        reveal_strlit("a");
        reveal_strlit("input");
        reveal_strlit("code");
        reveal_strlit("class");
        reveal_strlit("id");
        assert("input"@[0] != 's' && "input"@.len() != 1);
        assert("code"@.len() != 6 && "code"@.len() != 5 && "code"@.len() != 1);
        assert("class"@[0] != 'r' && "id"@.len() != 3);
        assert(allowed_tags_accepted(string_views(tags@)));
        assert(attributes_accepted(string_views(attributes@)));
        assert(tag_attributes_accepted(tag_attribute_views(per_tag@)));
    }
    let sanitized = clean_document(&tags, &attributes, &per_tag, rendered);
    fill_slots(sanitized.as_str(), slots)
}

/// Fills the slots of sanitised HTML, in order: each slot's marker, where it first
/// occurs, gives way to the slot's HTML.
pub fn fill_slots(html: &str, slots: &Vec<RenderSlot>) -> (r: String)
    ensures
        r@ == filled(html@, slot_pairs(slots@)),
{
    let mut out = String::from_str(html);
    let ghost all = slot_pairs(slots@);
    let mut k: usize = 0;
    assert(all.skip(0) == all);
    while k < slots.len()
        invariant
            k <= slots@.len(),
            all == slot_pairs(slots@),
            filled(out@, all.skip(k as int)) == filled(html@, all),
        decreases slots@.len() - k,
    {
        proof {
            assert(all.skip(k as int)[0] == (slots@[k as int].marker@, slots@[k as int].html@));
            assert(all.skip(k as int).drop_first() == all.skip(k + 1));
        }
        out = replace_first(out.as_str(), slots[k].marker.as_str(), slots[k].html.as_str());
        k = k + 1;
    }
    assert(all.skip(slots@.len() as int) == Seq::<(Seq<char>, Seq<char>)>::empty());
    out
}

// ---------------------------------------------------------------- laws

/// No component of `parts` is `..`.
pub open spec fn no_parent_steps(parts: Seq<Seq<char>>) -> bool {
    forall|k: int| 0 <= k < parts.len() ==> parts[k] != ".."@
}

proof fn lemma_normalized_onto_inside(base: Seq<Seq<char>>, parts: Seq<Seq<char>>)
    requires
        no_parent_steps(base),
    ensures
        normalized_onto(base, parts) matches Some(n) ==> no_parent_steps(n),
    decreases parts.len(),
{
    if parts.len() > 0 {
        if parts[0] == ".."@ {
            if base.len() > 0 {
                lemma_normalized_onto_inside(base.drop_last(), parts.drop_first());
            }
        } else {
            assert(no_parent_steps(base.push(parts[0])));
            lemma_normalized_onto_inside(base.push(parts[0]), parts.drop_first());
        }
    }
}

/// A link or image of a document never leads above the documentation root: a
/// destination that is not kept as written becomes `#`, or a `/doc/` or `/asset/` route
/// whose resolved path has no `..` component.
pub proof fn lemma_destination_stays_in_root(destination: Seq<char>, current: Seq<char>, image: bool)
    ensures
        ({
            let t = trim(destination);
            let r = rewritten_destination(destination, current, image);
            let k = suffix_start(t, 0);
            ||| kept_destination(t) && r == t
            ||| r == "#"@
            ||| exists|n: Seq<Seq<char>>| #![auto]
                link_target(t.take(k), current) == Some(n) && no_parent_steps(n) && r == (if !image
                    && is_markdown_path(join_with(n, "/"@)) {
                    "/doc/"@
                } else {
                    "/asset/"@
                }) + join_with(n.map_values(|c: Seq<char>| encode_segment(c)), "/"@) + t.skip(k)
        }),
{
    let t = trim(destination);
    let k = suffix_start(t, 0);
    let decoded = lossy_decoded(percent_decoded(encode_utf8(t.take(k))));
    if !kept_destination(t) && !refused_destination(t) {
        if !(decoded.len() > 0 && decoded[0] == '/') {
            if let Some(b) = parent_components(current) {
                assert(no_parent_steps(Seq::<Seq<char>>::empty()));
                lemma_normalized_onto_inside(seq![], b + components(decoded));
            }
        }
    }
}

/// Which slot a marker belongs to.
pub open spec fn slot_marker_of(s: SlotV) -> Seq<char> {
    match s {
        SlotV::Math(m, _, _) => m,
        SlotV::Mermaid(m, _) => m,
    }
}

/// No inline HTML, and no block HTML but the markers of the slots.
pub open spec fn only_slot_html(r: (Seq<EventV>, Seq<SlotV>)) -> bool {
    &&& forall|k: int| 0 <= k < r.0.len() ==> !(#[trigger] r.0[k] is InlineHtml)
    &&& forall|k: int|
        0 <= k < r.0.len() && (#[trigger] r.0[k] is Html) ==> exists|j: int|
            0 <= j < r.1.len() && slot_marker_of(#[trigger] r.1[j]) == r.0[k]->Html_0
}

/// Raw HTML of a document never reaches the page as HTML: the only HTML events the
/// renderer passes on are the markers of its slots.
pub proof fn lemma_raw_html_becomes_text(ev: Seq<EventV>, current: Seq<char>, i: int, slot: nat)
    ensures
        only_slot_html(rewritten_from(ev, current, i, slot)),
    decreases ev.len() - i,
{
    let r = rewritten_from(ev, current, i, slot);
    if 0 <= i < ev.len() {
        let kept = rewritten_from(ev, current, i + 1, slot);
        let with_marker = rewritten_from(ev, current, i + 1, slot + 1);
        lemma_raw_html_becomes_text(ev, current, i + 1, slot);
        lemma_raw_html_becomes_text(ev, current, i + 1, slot + 1);
        let mermaid = ev[i] matches EventV::Start(TagV::CodeBlock(Some(info))) && mermaid_info(info);
        if ev[i] is InlineMath || ev[i] is DisplayMath || mermaid {
            let rest = if mermaid {
                lemma_code_block_end(ev, i + 1);
                let j = code_block_end(ev, i + 1);
                lemma_raw_html_becomes_text(ev, current, j, slot + 1);
                rewritten_from(ev, current, j, slot + 1)
            } else {
                with_marker
            };
            assert(r.0 == seq![EventV::Html(slot_marker(slot, mermaid))] + rest.0);
            assert(slot_marker_of(r.1[0]) == slot_marker(slot, mermaid));
            assert forall|k: int| 0 <= k < r.0.len() && (#[trigger] r.0[k] is Html) implies exists|j: int|
                0 <= j < r.1.len() && slot_marker_of(#[trigger] r.1[j]) == r.0[k]->Html_0 by {
                if k > 0 {
                    assert(r.0[k] == rest.0[k - 1]);
                    let j0 = choose|j: int| 0 <= j < rest.1.len() && slot_marker_of(#[trigger] rest.1[j]) == rest.0[k - 1]->Html_0;
                    assert(r.1[j0 + 1] == rest.1[j0]);
                }
            }
            assert forall|k: int| 0 <= k < r.0.len() implies !(#[trigger] r.0[k] is InlineHtml) by {
                if k > 0 {
                    assert(r.0[k] == rest.0[k - 1]);
                }
            }
        } else {
            let head = if ev[i] is Start { if ev[i] matches EventV::Start(TagV::CodeBlock(Some(_))) { ev[i] } else { rewritten_event(ev[i], current) } } else { rewritten_event(ev[i], current) };
            assert(r.0 == seq![head] + kept.0);
            assert(r.1 == kept.1);
            assert(!(head is Html) && !(head is InlineHtml));
            assert forall|k: int| 0 <= k < r.0.len() && (#[trigger] r.0[k] is Html) implies exists|j: int|
                0 <= j < r.1.len() && slot_marker_of(#[trigger] r.1[j]) == r.0[k]->Html_0 by {
                assert(r.0[k] == kept.0[k - 1]);
            }
            assert forall|k: int| 0 <= k < r.0.len() implies !(#[trigger] r.0[k] is InlineHtml) by {
                if k > 0 {
                    assert(r.0[k] == kept.0[k - 1]);
                }
            }
        }
    }
}

/// Links to other sites, fragments, e-mail and telephone links stay as written: a
/// destination whose trimmed text begins with `http://`, `https://`, `#`, `mailto:` or
/// `tel:` is given back trimmed and otherwise unchanged, for links and images alike.
pub proof fn lemma_external_destinations_kept(destination: Seq<char>, current: Seq<char>, image: bool)
    requires
        ({
            let t = trim(destination);
            ||| seq!['h', 't', 't', 'p', ':', '/', '/'].is_prefix_of(t)
            ||| seq!['h', 't', 't', 'p', 's', ':', '/', '/'].is_prefix_of(t)
            ||| seq!['#'].is_prefix_of(t)
            ||| seq!['m', 'a', 'i', 'l', 't', 'o', ':'].is_prefix_of(t)
            ||| seq!['t', 'e', 'l', ':'].is_prefix_of(t)
        }),
    ensures
        rewritten_destination(destination, current, image) == trim(destination),
{
    reveal_strlit("#");
    reveal_strlit("http://");
    reveal_strlit("https://");
    reveal_strlit("mailto:");
    reveal_strlit("tel:");
    assert("#"@ =~= seq!['#']);
    assert("http://"@ =~= seq!['h', 't', 't', 'p', ':', '/', '/']);
    assert("https://"@ =~= seq!['h', 't', 't', 'p', 's', ':', '/', '/']);
    assert("mailto:"@ =~= seq!['m', 'a', 'i', 'l', 't', 'o', ':']);
    assert("tel:"@ =~= seq!['t', 'e', 'l', ':']);
    assert(kept_destination(trim(destination)));
}

/// Protocol-relative destinations (`//host/...`) lead nowhere, and so do destinations
/// holding a NUL that do not begin as an external link would (`#`, `h`, `m` or `t`):
/// they become `#`.
pub proof fn lemma_refused_destinations_go_nowhere(destination: Seq<char>, current: Seq<char>, image: bool)
    requires
        seq!['/', '/'].is_prefix_of(trim(destination)) || (trim(destination).contains('\0') && trim(destination)[0]
            != '#' && trim(destination)[0] != 'h' && trim(destination)[0] != 'm' && trim(destination)[0] != 't'),
    ensures
        rewritten_destination(destination, current, image) == seq!['#'],
{
    reveal_strlit("#");
    reveal_strlit("http://");
    reveal_strlit("https://");
    reveal_strlit("mailto:");
    reveal_strlit("tel:");
    reveal_strlit("//");
    let t = trim(destination);
    assert("//"@ =~= seq!['/', '/']);
    assert("#"@ =~= seq!['#']);
    if seq!['/', '/'].is_prefix_of(t) {
        assert(t.subrange(0, 2)[0] == t[0]);
    }
    let c = t[0];
    assert(c != '#' && c != 'h' && c != 'm' && c != 't');
    if kept_destination(t) {
        if "#"@.is_prefix_of(t) {
            assert(t.subrange(0, 1)[0] == t[0]);
        } else if "http://"@.is_prefix_of(t) {
            assert(t.subrange(0, 7)[0] == t[0]);
        } else if "https://"@.is_prefix_of(t) {
            assert(t.subrange(0, 8)[0] == t[0]);
        } else if "mailto:"@.is_prefix_of(t) {
            assert(t.subrange(0, 7)[0] == t[0]);
        } else {
            assert(t.subrange(0, 4)[0] == t[0]);
        }
    }
    assert(refused_destination(t));
}

} // verus!
