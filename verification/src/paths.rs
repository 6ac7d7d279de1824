//! Slash-separated relative paths, modelled on `std::path::Path` for Unix paths.

use vstd::prelude::*;
use crate::text::{find_from, lemma_find_from_bounds, find_char, range_is};

verus! {

/// The normal components of `s[i..]`: the pieces between `/` separators, without empty
/// pieces and without `.` pieces.
pub open spec fn comps_from(s: Seq<char>, i: int) -> Seq<Seq<char>>
    decreases s.len() - i + 1,
{
    if i < 0 || i > s.len() {
        seq![]
    } else {
        let e = find_from(s, '/', i);
        proof {
            lemma_find_from_bounds(s, '/', i);
        }
        let seg = s.subrange(i, e);
        let rest = if e < s.len() {
            comps_from(s, e + 1)
        } else {
            seq![]
        };
        if seg.len() == 0 || seg == seq!['.'] {
            rest
        } else {
            seq![seg] + rest
        }
    }
}

/// `Path::components` of a Unix path, each taken as text (the root is not a piece).
pub open spec fn components(s: Seq<char>) -> Seq<Seq<char>> {
    comps_from(s, 0)
}

pub open spec fn ranges_text(s: Seq<char>, r: Seq<(usize, usize)>) -> Seq<Seq<char>> {
    r.map_values(|p: (usize, usize)| s.subrange(p.0 as int, p.1 as int))
}

/// The components of `s` as ranges of `s`.
pub fn component_ranges(s: &[char]) -> (r: Vec<(usize, usize)>)
    ensures
        ranges_text(s@, r@) == components(s@),
        forall|k: int| 0 <= k < r@.len() ==> (#[trigger] r@[k]).0 <= r@[k].1 <= s@.len(),
{
    let mut out: Vec<(usize, usize)> = Vec::new();
    let mut i: usize = 0;
    loop
        invariant
            0 <= i <= s@.len(),
            ranges_text(s@, out@) + comps_from(s@, i as int) == components(s@),
            forall|k: int| 0 <= k < out@.len() ==> (#[trigger] out@[k]).0 <= out@[k].1 <= s@.len(),
        decreases s@.len() - i,
    {
        let e = find_char(s, '/', i);
        let ghost old_out = out@;
        let dot = ['.'];
        let keep = e > i && !range_is(s, i, e, &dot);
        if keep {
            out.push((i, e));
        }
        proof {
            assert(dot@ == seq!['.']);
            if keep {
                assert(ranges_text(s@, out@) == ranges_text(s@, old_out) + seq![
                    s@.subrange(i as int, e as int),
                ]);
            } else {
                assert(ranges_text(s@, out@) == ranges_text(s@, old_out));
            }
        }
        if e >= s.len() {
            proof {
                assert(ranges_text(s@, out@) + seq![] =~= ranges_text(s@, out@));
            }
            return out;
        }
        i = e + 1;
    }
}

/// `Path::file_name`: the last component unless it is `..`.
pub open spec fn file_name(s: Seq<char>) -> Option<Seq<char>> {
    let c = components(s);
    if c.len() == 0 || c.last() == seq!['.', '.'] {
        None
    } else {
        Some(c.last())
    }
}

/// Index of the last `c` in `s[..end]`, or -1.
pub open spec fn rfind(s: Seq<char>, c: char, end: int) -> int
    decreases end,
{
    if end <= 0 {
        -1
    } else if s[end - 1] == c {
        end - 1
    } else {
        rfind(s, c, end - 1)
    }
}

/// `Path::extension` of a file name: the text after its last dot, unless that dot
/// stands first or there is none.
pub open spec fn extension_of(name: Seq<char>) -> Option<Seq<char>> {
    let d = rfind(name, '.', name.len() as int);
    if name == seq!['.', '.'] || d <= 0 {
        None
    } else {
        Some(name.skip(d + 1))
    }
}

/// `Path::file_stem` of a file name.
pub open spec fn stem_of(name: Seq<char>) -> Seq<char> {
    let d = rfind(name, '.', name.len() as int);
    if name == seq!['.', '.'] || d <= 0 {
        name
    } else {
        name.take(d)
    }
}

pub fn rfind_char(s: &[char], c: char, from: usize, end: usize) -> (r: Option<usize>)
    requires
        from <= end <= s@.len(),
    ensures
        match r {
            Some(k) => from <= k < end && k == rfind(s@.subrange(from as int, end as int), c, (end - from) as int) + from,
            None => rfind(s@.subrange(from as int, end as int), c, (end - from) as int) == -1,
        },
{
    let ghost sub = s@.subrange(from as int, end as int);
    let mut i = end;
    while i > from
        invariant
            from <= i <= end <= s@.len(),
            sub == s@.subrange(from as int, end as int),
            rfind(sub, c, (end - from) as int) == rfind(sub, c, (i - from) as int),
        decreases i,
    {
        assert(sub[i - from - 1] == s@[i - 1]);
        if s[i - 1] == c {
            return Some(i - 1);
        }
        i = i - 1;
    }
    None
}

/// Range of the file name of `s`, when there is one.
pub fn file_name_range(s: &[char]) -> (r: Option<(usize, usize)>)
    ensures
        match r {
            Some(p) => p.0 <= p.1 <= s@.len() && file_name(s@) == Some(s@.subrange(p.0 as int, p.1 as int)),
            None => file_name(s@) is None,
        },
{
    let ranges = component_ranges(s);
    if ranges.len() == 0 {
        return None;
    }
    let last = ranges[ranges.len() - 1];
    let dots = ['.', '.'];
    proof {
        assert(ranges_text(s@, ranges@).last() == s@.subrange(last.0 as int, last.1 as int));
        assert(dots@ == seq!['.', '.']);
    }
    if range_is(s, last.0, last.1, &dots) {
        None
    } else {
        Some(last)
    }
}

/// Range of the extension of the file name `s[from..to]`, when there is one.
pub fn extension_range(s: &[char], from: usize, to: usize) -> (r: Option<(usize, usize)>)
    requires
        from <= to <= s@.len(),
    ensures
        match r {
            Some(p) => from <= p.0 <= p.1 && p.1 == to
                && extension_of(s@.subrange(from as int, to as int)) == Some(s@.subrange(p.0 as int, p.1 as int)),
            None => extension_of(s@.subrange(from as int, to as int)) is None,
        },
{
    let dots = ['.', '.'];
    proof {
        assert(dots@ == seq!['.', '.']);
    }
    if range_is(s, from, to, &dots) {
        return None;
    }
    match rfind_char(s, '.', from, to) {
        Some(k) => {
            if k == from {
                None
            } else {
                proof {
                    let name = s@.subrange(from as int, to as int);
                    assert(name.skip(k - from + 1) =~= s@.subrange(k + 1, to as int));
                }
                Some((k + 1, to))
            }
        },
        None => None,
    }
}

/// Range of the stem of the file name `s[from..to]`.
pub fn stem_range(s: &[char], from: usize, to: usize) -> (r: (usize, usize))
    requires
        from <= to <= s@.len(),
    ensures
        from == r.0 <= r.1 <= to,
        stem_of(s@.subrange(from as int, to as int)) == s@.subrange(r.0 as int, r.1 as int),
{
    let dots = ['.', '.'];
    proof {
        assert(dots@ == seq!['.', '.']);
    }
    if range_is(s, from, to, &dots) {
        return (from, to);
    }
    match rfind_char(s, '.', from, to) {
        Some(k) => {
            if k == from {
                (from, to)
            } else {
                proof {
                    let name = s@.subrange(from as int, to as int);
                    assert(name.take(k - from) =~= s@.subrange(from as int, k as int));
                }
                (from, k)
            }
        },
        None => (from, to),
    }
}

} // verus!
