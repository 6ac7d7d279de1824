//! Character-sequence helpers shared by the parsers and renderers.

use vstd::prelude::*;
use crate::calls::push_char;

verus! {

/// The characters for which `char::is_whitespace` holds (Unicode `White_Space`).
pub open spec fn is_ws(c: char) -> bool {
    let u = c as u32;
    (0x9 <= u && u <= 0xD) || u == 0x20 || u == 0x85 || u == 0xA0 || u == 0x1680
        || (0x2000 <= u && u <= 0x200A) || u == 0x2028 || u == 0x2029 || u == 0x202F
        || u == 0x205F || u == 0x3000
}

pub fn is_whitespace(c: char) -> (b: bool)
    ensures
        b == is_ws(c),
{
    let u = c as u32;
    (0x9 <= u && u <= 0xD) || u == 0x20 || u == 0x85 || u == 0xA0 || u == 0x1680 || (0x2000 <= u
        && u <= 0x200A) || u == 0x2028 || u == 0x2029 || u == 0x202F || u == 0x205F || u == 0x3000
}

/// Character classes that the trimming functions of this crate strip.
#[derive(Clone, Copy, PartialEq, Eq, Structural)]
pub enum CharSet {
    Whitespace,
    Braces,
    Dot,
    Hash,
    CrLf,
    Cr,
    Plus,
    Decoration,
    NotWhitespace,
    AsciiWhitespace,
    NotAsciiWhitespace,
}

/// `char::is_ascii_whitespace`: space, tab, line feed, form feed and carriage return.
pub open spec fn is_ascii_ws(c: char) -> bool {
    c == ' ' || c == '\t' || c == '\n' || c == '\x0C' || c == '\r'
}

pub open spec fn in_set(set: CharSet, c: char) -> bool {
    match set {
        CharSet::Whitespace => is_ws(c),
        CharSet::Braces => c == '{' || c == '}',
        CharSet::Dot => c == '.',
        CharSet::Hash => c == '#',
        CharSet::CrLf => c == '\r' || c == '\n',
        CharSet::Cr => c == '\r',
        CharSet::Plus => c == '+',
        CharSet::Decoration => c == '|' || c == '(' || c == ')' || c == '[' || c == ']' || c
            == '{' || c == '}' || c == '<' || c == '>' || c == ',' || c == ';' || c == '\''
            || c == '"',
        CharSet::NotWhitespace => !is_ws(c),
        CharSet::AsciiWhitespace => is_ascii_ws(c),
        CharSet::NotAsciiWhitespace => !is_ascii_ws(c),
    }
}

pub fn in_char_set(set: CharSet, c: char) -> (b: bool)
    ensures
        b == in_set(set, c),
{
    match set {
        CharSet::Whitespace => is_whitespace(c),
        CharSet::Braces => c == '{' || c == '}',
        CharSet::Dot => c == '.',
        CharSet::Hash => c == '#',
        CharSet::CrLf => c == '\r' || c == '\n',
        CharSet::Cr => c == '\r',
        CharSet::Plus => c == '+',
        CharSet::Decoration => c == '|' || c == '(' || c == ')' || c == '[' || c == ']' || c
            == '{' || c == '}' || c == '<' || c == '>' || c == ',' || c == ';' || c == '\''
            || c == '"',
        CharSet::NotWhitespace => !is_whitespace(c),
        CharSet::AsciiWhitespace => c == ' ' || c == '\t' || c == '\n' || c == '\x0C' || c == '\r',
        CharSet::NotAsciiWhitespace => !(c == ' ' || c == '\t' || c == '\n' || c == '\x0C' || c == '\r'),
    }
}

/// Number of leading characters of `s` that belong to `set`.
pub open spec fn lead(s: Seq<char>, set: CharSet) -> nat
    decreases s.len(),
{
    if s.len() > 0 && in_set(set, s[0]) {
        1 + lead(s.drop_first(), set)
    } else {
        0
    }
}

/// Number of trailing characters of `s` that belong to `set`.
pub open spec fn trail(s: Seq<char>, set: CharSet) -> nat
    decreases s.len(),
{
    if s.len() > 0 && in_set(set, s.last()) {
        1 + trail(s.drop_last(), set)
    } else {
        0
    }
}

/// `str::trim_start_matches` with a character class.
pub open spec fn trim_start_by(s: Seq<char>, set: CharSet) -> Seq<char> {
    s.skip(lead(s, set) as int)
}

/// `str::trim_end_matches` with a character class.
pub open spec fn trim_end_by(s: Seq<char>, set: CharSet) -> Seq<char> {
    s.take(s.len() - trail(s, set))
}

/// `str::trim_matches` with a character class.
pub open spec fn trim_by(s: Seq<char>, set: CharSet) -> Seq<char> {
    trim_end_by(trim_start_by(s, set), set)
}

/// `str::trim`.
pub open spec fn trim(s: Seq<char>) -> Seq<char> {
    trim_by(s, CharSet::Whitespace)
}

pub proof fn lemma_lead_bounded(s: Seq<char>, set: CharSet)
    ensures
        lead(s, set) <= s.len(),
        forall|j: int| 0 <= j < lead(s, set) ==> in_set(set, #[trigger] s[j]),
        lead(s, set) < s.len() ==> !in_set(set, s[lead(s, set) as int]),
    decreases s.len(),
{
    if s.len() > 0 && in_set(set, s[0]) {
        lemma_lead_bounded(s.drop_first(), set);
        assert forall|j: int| 0 <= j < lead(s, set) implies in_set(set, #[trigger] s[j]) by {
            if j > 0 {
                assert(s[j] == s.drop_first()[j - 1]);
            }
        }
    }
}

pub proof fn lemma_trail_bounded(s: Seq<char>, set: CharSet)
    ensures
        trail(s, set) <= s.len(),
        forall|j: int| s.len() - trail(s, set) <= j < s.len() ==> in_set(set, #[trigger] s[j]),
        trail(s, set) < s.len() ==> !in_set(set, s[s.len() - trail(s, set) - 1]),
    decreases s.len(),
{
    if s.len() > 0 && in_set(set, s.last()) {
        lemma_trail_bounded(s.drop_last(), set);
        assert forall|j: int| s.len() - trail(s, set) <= j < s.len() implies in_set(
            set,
            #[trigger] s[j],
        ) by {
            if j < s.len() - 1 {
                assert(s[j] == s.drop_last()[j]);
            }
        }
    }
}

/// The count of leading class members is determined by where the first non-member stands.
pub proof fn lemma_lead_is(s: Seq<char>, set: CharSet, i: int)
    requires
        0 <= i <= s.len(),
        forall|j: int| 0 <= j < i ==> in_set(set, #[trigger] s[j]),
        i == s.len() || !in_set(set, s[i]),
    ensures
        lead(s, set) == i,
    decreases i,
{
    if i > 0 {
        assert(in_set(set, s[0]));
        let t = s.drop_first();
        assert forall|j: int| 0 <= j < i - 1 implies in_set(set, #[trigger] t[j]) by {
            assert(t[j] == s[j + 1]);
        }
        if i < s.len() {
            assert(t[i - 1] == s[i]);
        }
        lemma_lead_is(t, set, i - 1);
    }
}

pub proof fn lemma_trail_is(s: Seq<char>, set: CharSet, k: int)
    requires
        0 <= k <= s.len(),
        forall|j: int| s.len() - k <= j < s.len() ==> in_set(set, #[trigger] s[j]),
        k == s.len() || !in_set(set, s[s.len() - k - 1]),
    ensures
        trail(s, set) == k,
    decreases k,
{
    if k > 0 {
        assert(in_set(set, s[s.len() - 1]));
        let t = s.drop_last();
        assert forall|j: int| t.len() - (k - 1) <= j < t.len() implies in_set(
            set,
            #[trigger] t[j],
        ) by {
            assert(t[j] == s[j]);
        }
        if k < s.len() {
            assert(t[t.len() - (k - 1) - 1] == s[s.len() - k - 1]);
        }
        lemma_trail_is(t, set, k - 1);
    }
}

/// Index of the first character of `s[from..to]` outside `set` (or `to`).
pub fn skip_set(s: &[char], from: usize, to: usize, set: CharSet) -> (i: usize)
    requires
        from <= to <= s@.len(),
    ensures
        from <= i <= to,
        i - from == lead(s@.subrange(from as int, to as int), set),
{
    let mut i = from;
    while i < to && in_char_set(set, s[i])
        invariant
            from <= i <= to <= s@.len(),
            forall|j: int| from <= j < i ==> in_set(set, #[trigger] s@[j]),
        decreases to - i,
    {
        i = i + 1;
    }
    proof {
        let sub = s@.subrange(from as int, to as int);
        assert forall|j: int| 0 <= j < i - from implies in_set(set, #[trigger] sub[j]) by {
            assert(sub[j] == s@[from + j]);
        }
        if i < to {
            assert(sub[i - from] == s@[i as int]);
        }
        lemma_lead_is(sub, set, i - from);
    }
    i
}

/// Index just past the last character of `s[from..to]` outside `set` (or `from`).
pub fn skip_set_back(s: &[char], from: usize, to: usize, set: CharSet) -> (i: usize)
    requires
        from <= to <= s@.len(),
    ensures
        from <= i <= to,
        to - i == trail(s@.subrange(from as int, to as int), set),
{
    let mut i = to;
    while i > from && in_char_set(set, s[i - 1])
        invariant
            from <= i <= to <= s@.len(),
            forall|j: int| i <= j < to ==> in_set(set, #[trigger] s@[j]),
        decreases i - from,
    {
        i = i - 1;
    }
    proof {
        let sub = s@.subrange(from as int, to as int);
        assert forall|j: int| sub.len() - (to - i) <= j < sub.len() implies in_set(
            set,
            #[trigger] sub[j],
        ) by {
            assert(sub[j] == s@[from + j]);
        }
        if i > from {
            assert(sub[sub.len() - (to - i) - 1] == s@[i - 1]);
        }
        lemma_trail_is(sub, set, (to - i) as int);
    }
    i
}

/// Bounds `(a, b)` of `trim_by(s[from..to], set)` inside `s`.
pub fn trim_bounds(s: &[char], from: usize, to: usize, set: CharSet) -> (r: (usize, usize))
    requires
        from <= to <= s@.len(),
    ensures
        from <= r.0 <= r.1 <= to,
        s@.subrange(r.0 as int, r.1 as int) == trim_by(s@.subrange(from as int, to as int), set),
{
    let a = skip_set(s, from, to, set);
    let b = skip_set_back(s, a, to, set);
    proof {
        let sub = s@.subrange(from as int, to as int);
        assert(trim_start_by(sub, set) == s@.subrange(a as int, to as int));
    }
    (a, b)
}

/// The characters of a string slice, in order.
pub fn chars_of(s: &str) -> (v: Vec<char>)
    ensures
        v@ == s@,
{
    let mut v: Vec<char> = Vec::new();
    for c in it: s.chars()
        invariant
            v@ == it.seq().take(it.index() as int),
            it.seq() == s@,
    {
        v.push(c);
    }
    v
}

/// Appends `s[from..to]` to `out`.
pub fn push_range(out: &mut String, s: &[char], from: usize, to: usize)
    requires
        from <= to <= s@.len(),
    ensures
        final(out)@ == old(out)@ + s@.subrange(from as int, to as int),
{
    let mut i = from;
    while i < to
        invariant
            from <= i <= to <= s@.len(),
            out@ == old(out)@ + s@.subrange(from as int, i as int),
        decreases to - i,
    {
        push_char(out, s[i]);
        assert(s@.subrange(from as int, i + 1) == s@.subrange(from as int, i as int).push(s@[i as int]));
        i = i + 1;
    }
}

/// A string holding `s[from..to]`.
pub fn string_of(s: &[char], from: usize, to: usize) -> (r: String)
    requires
        from <= to <= s@.len(),
    ensures
        r@ == s@.subrange(from as int, to as int),
{
    let mut r = String::new();
    push_range(&mut r, s, 0 + from, to);
    r
}

} // verus!

verus! {

/// Index of the first `c` in `s` at or after `i`, or `s.len()` when there is none.
pub open spec fn find_from(s: Seq<char>, c: char, i: int) -> int
    decreases s.len() - i,
{
    if i < 0 || i >= s.len() {
        s.len() as int
    } else if s[i] == c {
        i
    } else {
        find_from(s, c, i + 1)
    }
}

pub proof fn lemma_find_from_bounds(s: Seq<char>, c: char, i: int)
    requires
        0 <= i <= s.len(),
    ensures
        i <= find_from(s, c, i) <= s.len(),
        find_from(s, c, i) < s.len() ==> s[find_from(s, c, i)] == c,
        forall|j: int| i <= j < find_from(s, c, i) ==> s[j] != c,
    decreases s.len() - i,
{
    if i < s.len() && s[i] != c {
        lemma_find_from_bounds(s, c, i + 1);
    }
}

pub fn find_char(s: &[char], c: char, from: usize) -> (r: usize)
    requires
        from <= s@.len(),
    ensures
        r as int == find_from(s@, c, from as int),
        from <= r <= s@.len(),
{
    let mut i = from;
    while i < s.len() && s[i] != c
        invariant
            from <= i <= s@.len(),
            find_from(s@, c, from as int) == find_from(s@, c, i as int),
        decreases s@.len() - i,
    {
        i = i + 1;
    }
    i
}

/// `a` and `b` hold the same characters.
pub fn same_chars(a: &[char], b: &[char]) -> (r: bool)
    ensures
        r == (a@ == b@),
{
    if a.len() != b.len() {
        return false;
    }
    let mut i: usize = 0;
    while i < a.len()
        invariant
            a@.len() == b@.len(),
            0 <= i <= a@.len(),
            forall|j: int| 0 <= j < i ==> a@[j] == b@[j],
        decreases a@.len() - i,
    {
        if a[i] != b[i] {
            return false;
        }
        i = i + 1;
    }
    assert(a@ =~= b@);
    true
}

/// `s[from..to]` holds the characters of `lit`.
pub fn range_is(s: &[char], from: usize, to: usize, lit: &[char]) -> (r: bool)
    requires
        from <= to <= s@.len(),
    ensures
        r == (s@.subrange(from as int, to as int) == lit@),
{
    if to - from != lit.len() {
        return false;
    }
    let mut i: usize = 0;
    while i < lit.len()
        invariant
            to - from == lit@.len(),
            from <= to <= s@.len(),
            0 <= i <= lit@.len(),
            forall|j: int| 0 <= j < i ==> s@[from + j] == lit@[j],
        decreases lit@.len() - i,
    {
        if s[from + i] != lit[i] {
            return false;
        }
        i = i + 1;
    }
    assert(s@.subrange(from as int, to as int) =~= lit@);
    true
}

/// `s[from..to]` begins with the characters of `lit`.
pub fn range_starts_with(s: &[char], from: usize, to: usize, lit: &[char]) -> (r: bool)
    requires
        from <= to <= s@.len(),
    ensures
        r == (lit@.len() <= to - from && s@.subrange(from as int, from + lit@.len()) == lit@),
{
    if lit.len() > to - from {
        return false;
    }
    range_is(s, from, from + lit.len(), lit)
}

pub open spec fn ascii_lower_char(c: char) -> char {
    if 'A' <= c && c <= 'Z' {
        ((c as u32) + 32) as char
    } else {
        c
    }
}

/// `str::to_ascii_lowercase`.
pub open spec fn ascii_lower(s: Seq<char>) -> Seq<char> {
    s.map_values(|c: char| ascii_lower_char(c))
}

pub fn lower_ascii_char(c: char) -> (r: char)
    ensures
        r == ascii_lower_char(c),
{
    if 'A' <= c && c <= 'Z' {
        let u = c as u32 + 32;
        let r = char_from_ascii(u);
        r
    } else {
        c
    }
}

fn char_from_ascii(u: u32) -> (c: char)
    requires
        97 <= u <= 122,
    ensures
        c as u32 == u,
{
    let b = u as u8;
    b as char
}

/// `s[from..to]` in ASCII lower case.
pub fn lower_ascii_range(s: &[char], from: usize, to: usize) -> (r: Vec<char>)
    requires
        from <= to <= s@.len(),
    ensures
        r@ == ascii_lower(s@.subrange(from as int, to as int)),
{
    let mut r: Vec<char> = Vec::new();
    let mut i = from;
    while i < to
        invariant
            from <= i <= to <= s@.len(),
            r@ == ascii_lower(s@.subrange(from as int, i as int)),
        decreases to - i,
    {
        r.push(lower_ascii_char(s[i]));
        assert(s@.subrange(from as int, i + 1) == s@.subrange(from as int, i as int).push(s@[i as int]));
        i = i + 1;
    }
    r
}

} // verus!

verus! {

/// The pieces joined with `sep` between them.
pub open spec fn join_with(parts: Seq<Seq<char>>, sep: Seq<char>) -> Seq<char>
    decreases parts.len(),
{
    if parts.len() == 0 {
        seq![]
    } else if parts.len() == 1 {
        parts[0]
    } else {
        join_with(parts.drop_last(), sep) + sep + parts.last()
    }
}

pub proof fn lemma_join_step(parts: Seq<Seq<char>>, sep: Seq<char>, k: int)
    requires
        0 <= k < parts.len(),
    ensures
        join_with(parts.take(k + 1), sep) == if k == 0 {
            parts[0]
        } else {
            join_with(parts.take(k), sep) + sep + parts[k]
        },
{
    assert(parts.take(k + 1).drop_last() == parts.take(k));
    if k == 0 {
        assert(parts.take(1)[0] == parts[0]);
    }
}

pub open spec fn string_views(v: Seq<String>) -> Seq<Seq<char>> {
    v.map_values(|s: String| s@)
}

/// `parts` joined with `sep` between them (`[String]::join`).
pub fn join_strings(parts: &Vec<String>, sep: &str) -> (r: String)
    ensures
        r@ == join_with(string_views(parts@), sep@),
{
    let mut out = String::new();
    let mut k: usize = 0;
    let ghost ps = string_views(parts@);
    assert(ps.take(0) =~= Seq::<Seq<char>>::empty());
    while k < parts.len()
        invariant
            ps == string_views(parts@),
            k <= parts@.len(),
            out@ == join_with(ps.take(k as int), sep@),
        decreases parts@.len() - k,
    {
        proof {
            lemma_join_step(ps, sep@, k as int);
        }
        if k > 0 {
            out.append(sep);
        }
        out.append(parts[k].as_str());
        assert(ps[k as int] == parts@[k as int]@);
        k = k + 1;
    }
    assert(ps.take(parts@.len() as int) =~= ps);
    out
}

/// The pieces one after another.
pub open spec fn concat_all(parts: Seq<Seq<char>>) -> Seq<char>
    decreases parts.len(),
{
    if parts.len() == 0 {
        seq![]
    } else {
        concat_all(parts.drop_last()) + parts.last()
    }
}

pub proof fn lemma_concat_step(parts: Seq<Seq<char>>, k: int)
    requires
        0 <= k < parts.len(),
    ensures
        concat_all(parts.take(k + 1)) == concat_all(parts.take(k)) + parts[k],
{
    assert(parts.take(k + 1).drop_last() == parts.take(k));
}

pub proof fn lemma_concat_append(a: Seq<Seq<char>>, b: Seq<Seq<char>>)
    ensures
        concat_all(a + b) == concat_all(a) + concat_all(b),
    decreases b.len(),
{
    if b.len() == 0 {
        assert(a + b == a);
    } else {
        lemma_concat_append(a, b.drop_last());
        assert((a + b).drop_last() == a + b.drop_last());
        assert((a + b).last() == b.last());
    }
}

pub open spec fn digit_char(d: int) -> char {
    (d + 48) as char
}

/// The decimal digits of `n`, as `Display` writes an unsigned integer.
pub open spec fn dec(n: nat) -> Seq<char>
    decreases n,
{
    if n < 10 {
        seq![digit_char(n as int)]
    } else {
        dec(n / 10).push(digit_char((n % 10) as int))
    }
}

/// Appends the decimal digits of `n`.
pub fn push_decimal(out: &mut String, n: u64)
    ensures
        final(out)@ == old(out)@ + dec(n as nat),
    decreases n,
{
    if n >= 10 {
        push_decimal(out, n / 10);
    }
    let d = (n % 10) as u32 + 48;
    let c = digit_from(d);
    push_char(out, c);
}

fn digit_from(u: u32) -> (c: char)
    requires
        48 <= u <= 57,
    ensures
        c as u32 == u,
{
    let b = u as u8;
    b as char
}

/// The decimal form of `n` right-aligned in `width` columns, as `{:>width$}` writes it.
pub open spec fn padded_dec(n: nat, width: nat) -> Seq<char> {
    let d = dec(n);
    if d.len() >= width {
        d
    } else {
        Seq::new((width - d.len()) as nat, |i: int| ' ') + d
    }
}

pub proof fn lemma_dec_len_pos(n: nat)
    ensures
        dec(n).len() >= 1,
    decreases n,
{
    if n >= 10 {
        lemma_dec_len_pos(n / 10);
    }
}

/// The number of decimal digits of `n`.
pub fn decimal_len(n: u64) -> (r: usize)
    ensures
        r == dec(n as nat).len(),
        r <= 20,
    decreases n,
{
    if n < 10 {
        1
    } else {
        proof {
            reveal_with_fuel(pow10, 20);
            assert(pow10(19) == 10000000000000000000);
            lemma_dec_len_bound((n / 10) as nat, 19);
        }
        decimal_len(n / 10) + 1
    }
}

pub open spec fn pow10(k: nat) -> nat
    decreases k,
{
    if k == 0 {
        1
    } else {
        10 * pow10((k - 1) as nat)
    }
}

pub proof fn lemma_dec_len_bound(n: nat, k: nat)
    requires
        k >= 1,
        n < pow10(k),
    ensures
        dec(n).len() <= k,
    decreases k,
{
    if n >= 10 {
        assert(k >= 2) by {
            if k == 1 {
                reveal_with_fuel(pow10, 2);
                assert(pow10(1) == 10);
            }
        }
        lemma_dec_len_bound(n / 10, (k - 1) as nat);
    }
}

/// Appends `n` right-aligned in `width` columns.
pub fn push_padded_decimal(out: &mut String, n: u64, width: usize)
    ensures
        final(out)@ == old(out)@ + padded_dec(n as nat, width as nat),
{
    let len = decimal_len(n);
    let ghost start = out@;
    if len < width {
        let mut k: usize = 0;
        while k < width - len
            invariant
                len < width,
                0 <= k <= width - len,
                out@ == start + Seq::new(k as nat, |i: int| ' '),
            decreases width - len - k,
        {
            push_char(out, ' ');
            assert(Seq::new((k + 1) as nat, |i: int| ' ') == Seq::new(k as nat, |i: int| ' ').push(' '));
            k = k + 1;
        }
    }
    push_decimal(out, n);
    proof {
        if len >= width {
            assert(padded_dec(n as nat, width as nat) == dec(n as nat));
        }
    }
}

} // verus!
