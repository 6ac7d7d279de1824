//! Markdown renderers shared by the CLI, the terminal browser and the web server.

pub mod markdown;
pub mod style;
pub mod terminal;
pub mod cards;
pub mod wrap;
pub mod builder;
pub mod html;
pub mod rewrite;

use vstd::prelude::*;
use crate::calls::push_char;
use crate::text::{ascii_lower, chars_of, lead, lower_ascii_range, range_is, range_starts_with,
    same_chars, skip_set, trim_bounds, trim_by, trim_start_by, CharSet};

verus! {

/// The first whitespace-separated word of `s`, or nothing.
pub open spec fn first_word(s: Seq<char>) -> Seq<char> {
    let t = trim_start_by(s, CharSet::Whitespace);
    t.take(lead(t, CharSet::NotWhitespace) as int)
}

pub open spec fn language_prefix() -> Seq<char> {
    seq!['l', 'a', 'n', 'g', 'u', 'a', 'g', 'e', '-']
}

/// The language named by a code fence's info string: its first word without braces and
/// leading dots, in ASCII lower case, without a `language-` prefix.
pub open spec fn fence_language(info: Seq<char>) -> Seq<char> {
    let token = ascii_lower(
        trim_start_by(trim_by(first_word(info), CharSet::Braces), CharSet::Dot),
    );
    if token.len() >= 9 && token.take(9) == language_prefix() {
        token.skip(9)
    } else {
        token
    }
}

/// Names under which a fence holds a Mermaid diagram.
pub open spec fn is_mermaid_name(l: Seq<char>) -> bool {
    l == seq!['m', 'e', 'r', 'm', 'a', 'i', 'd'] || l == seq!['m', 'm', 'd'] || l == seq![
        'm',
        'e',
        'r',
        'm',
        'a',
        'i',
        'd',
        'j',
        's',
    ] || l == seq!['m', 'e', 'r', 'm', 'a', 'i', 'd', '-', 'j', 's']
}

pub open spec fn mermaid_info(info: Seq<char>) -> bool {
    is_mermaid_name(fence_language(info))
}

pub fn is_mermaid_language_chars(s: &[char]) -> (r: bool)
    ensures
        r == mermaid_info(s@),
{
    assert(s@.subrange(0, s@.len() as int) == s@);
    let a = skip_set(s, 0, s.len(), CharSet::Whitespace);
    let b = skip_set(s, a, s.len(), CharSet::NotWhitespace);
    let (c, d) = trim_bounds(s, a, b, CharSet::Braces);
    let e = skip_set(s, c, d, CharSet::Dot);
    let lower = lower_ascii_range(s, e, d);
    proof {
        let t = trim_start_by(s@, CharSet::Whitespace);
        assert(t =~= s@.subrange(a as int, s@.len() as int));
        assert(first_word(s@) =~= s@.subrange(a as int, b as int));
        assert(trim_start_by(s@.subrange(c as int, d as int), CharSet::Dot) =~= s@.subrange(
            e as int,
            d as int,
        ));
    }
    let prefix = ['l', 'a', 'n', 'g', 'u', 'a', 'g', 'e', '-'];
    proof { assert(prefix@ == language_prefix()); }
    let start = if range_starts_with(lower.as_slice(), 0, lower.len(), &prefix) {
        9
    } else {
        0
    };
    proof {
        if start == 9 {
            assert(lower@.skip(9) =~= lower@.subrange(9, lower@.len() as int));
        } else {
            assert(lower@ =~= lower@.subrange(0, lower@.len() as int));
        }
    }
    let m1 = ['m', 'e', 'r', 'm', 'a', 'i', 'd'];
    let m2 = ['m', 'm', 'd'];
    let m3 = ['m', 'e', 'r', 'm', 'a', 'i', 'd', 'j', 's'];
    let m4 = ['m', 'e', 'r', 'm', 'a', 'i', 'd', '-', 'j', 's'];
    proof {
        assert(m1@ == seq!['m', 'e', 'r', 'm', 'a', 'i', 'd']);
        assert(m2@ == seq!['m', 'm', 'd']);
        assert(m3@ == seq!['m', 'e', 'r', 'm', 'a', 'i', 'd', 'j', 's']);
        assert(m4@ == seq!['m', 'e', 'r', 'm', 'a', 'i', 'd', '-', 'j', 's']);
    }
    let n = lower.len();
    range_is(lower.as_slice(), start, n, &m1) || range_is(lower.as_slice(), start, n, &m2)
        || range_is(lower.as_slice(), start, n, &m3) || range_is(lower.as_slice(), start, n, &m4)
}

/// Whether a code fence info string marks a Mermaid diagram (`mermaid`, `mmd`,
/// `mermaidjs`, `mermaid-js`, in any ASCII case, also as `{.mermaid}` or
/// `language-mermaid`).
pub fn is_mermaid_language(info: &str) -> (r: bool)
    ensures
        r == mermaid_info(info@),
{
    let s = chars_of(info);
    is_mermaid_language_chars(s.as_slice())
}

// ---------------------------------------------------------------- themes

/// Colour theme of the renderers.
#[derive(Clone, Copy, Debug, PartialEq, Eq, Structural)]
pub enum Theme {
    Auto,
    Dark,
    Light,
}

impl Default for Theme {
    fn default() -> (t: Theme)
        ensures
            t == Theme::Auto,
    {
        Theme::Auto
    }
}

pub open spec fn is_digit(c: char) -> bool {
    '0' <= c && c <= '9'
}

/// The value of a string of decimal digits.
pub open spec fn decimal(d: Seq<char>) -> int
    decreases d.len(),
{
    if d.len() == 0 {
        0
    } else {
        decimal(d.drop_last()) * 10 + ((d.last() as u32) - 48)
    }
}

pub open spec fn all_digits(d: Seq<char>) -> bool {
    forall|i: int| 0 <= i < d.len() ==> is_digit(#[trigger] d[i])
}

pub open spec fn without_plus(s: Seq<char>) -> Seq<char> {
    if s.len() > 0 && s[0] == '+' {
        s.drop_first()
    } else {
        s
    }
}

/// `u8::from_str`: an optional `+` and at least one decimal digit, at most 255.
pub open spec fn parse_u8(s: Seq<char>) -> Option<u8> {
    let d = without_plus(s);
    if d.len() == 0 || !all_digits(d) {
        None
    } else if decimal(d) <= 255 {
        Some(decimal(d) as u8)
    } else {
        None
    }
}

pub proof fn lemma_decimal_grows(d: Seq<char>, k: int)
    requires
        0 <= k <= d.len(),
        forall|i: int| 0 <= i < d.len() ==> is_digit(#[trigger] d[i]),
    ensures
        decimal(d.take(k)) <= decimal(d),
        decimal(d) >= 0,
    decreases d.len(),
{
    if d.len() > 0 {
        let p = d.drop_last();
        assert forall|i: int| 0 <= i < p.len() implies is_digit(#[trigger] p[i]) by {
            assert(p[i] == d[i]);
        }
        if k < d.len() {
            lemma_decimal_grows(p, k);
            assert(p.take(k) == d.take(k));
        } else {
            assert(d.take(k) == d);
            lemma_decimal_grows(p, 0);
        }
    }
}

fn parse_u8_exec(s: &[char]) -> (r: Option<u8>)
    ensures
        r == parse_u8(s@),
{
    let start: usize = if s.len() > 0 && s[0] == '+' {
        1
    } else {
        0
    };
    let ghost d = if s@.len() > 0 && s@[0] == '+' {
        s@.drop_first()
    } else {
        s@
    };
    assert(d =~= s@.subrange(start as int, s@.len() as int));
    if start == s.len() {
        assert(d.len() == 0);
        return None;
    }
    let mut i = start;
    while i < s.len()
        invariant
            start <= i <= s@.len(),
            d == s@.subrange(start as int, s@.len() as int),
            d == without_plus(s@),
            forall|j: int| start <= j < i ==> is_digit(#[trigger] s@[j]),
        decreases s@.len() - i,
    {
        if !('0' <= s[i] && s[i] <= '9') {
            assert(d[i - start] == s@[i as int]);
            assert(!is_digit(d[i - start]));
            assert(!all_digits(d));
            return None;
        }
        i = i + 1;
    }
    assert forall|j: int| 0 <= j < d.len() implies is_digit(#[trigger] d[j]) by {
        assert(d[j] == s@[start + j]);
    }
    let mut acc: u32 = 0;
    let mut i = start;
    while i < s.len()
        invariant
            start <= i <= s@.len(),
            d == s@.subrange(start as int, s@.len() as int),
            d == without_plus(s@),
            forall|j: int| 0 <= j < d.len() ==> is_digit(#[trigger] d[j]),
            acc == decimal(d.take(i - start)),
            acc <= 255,
        decreases s@.len() - i,
    {
        proof {
            assert(d[i - start] == s@[i as int]);
            assert(is_digit(d[i - start]));
            assert(d.take(i - start + 1).drop_last() == d.take(i - start));
            assert(d.take(i - start + 1).last() == s@[i as int]);
        }
        let digit = (s[i] as u32) - 48;
        let next = acc * 10 + digit;
        assert(decimal(d.take(i - start + 1)) == next);
        if next > 255 {
            proof {
                lemma_decimal_grows(d, i - start + 1);
                assert(all_digits(d));
                assert(decimal(d) > 255);
                assert(d.len() != 0);
            }
            return None;
        }
        acc = next;
        i = i + 1;
    }
    assert(d.take(d.len() as int) == d);
    Some(acc as u8)
}

/// The text after the last `;` of `s` (all of `s` when there is none).
pub open spec fn after_last_semicolon(s: Seq<char>) -> Seq<char>
    decreases s.len(),
{
    if s.len() == 0 {
        s
    } else if s.last() == ';' {
        seq![]
    } else {
        after_last_semicolon(s.drop_last()).push(s.last())
    }
}

/// How `Theme::Auto` resolves against the terminal's `COLORFGBG` setting: a background
/// colour 0 to 6 or 8 means a dark terminal, another number a light one, and no number a
/// dark one.
pub open spec fn resolve_theme(t: Theme, colorfgbg: Seq<char>) -> Theme {
    match t {
        Theme::Auto => match parse_u8(after_last_semicolon(colorfgbg)) {
            Some(c) => if c <= 6 || c == 8 {
                Theme::Dark
            } else {
                Theme::Light
            },
            None => Theme::Dark,
        },
        other => other,
    }
}

/// `unknown theme '<name in lower case>'; use auto, dark, or light`.
pub open spec fn unknown_theme_message(v: Seq<char>) -> Seq<char> {
    seq!['u', 'n', 'k', 'n', 'o', 'w', 'n', ' ', 't', 'h', 'e', 'm', 'e', ' ', '\''] + ascii_lower(v) + seq![
        '\'', ';', ' ', 'u', 's', 'e', ' ', 'a', 'u', 't', 'o', ',', ' ', 'd', 'a', 'r', 'k', ',', ' ', 'o', 'r',
        ' ', 'l', 'i', 'g', 'h', 't',
    ]
}

pub open spec fn theme_name(s: Seq<char>) -> Option<Theme> {
    let l = ascii_lower(s);
    if l == seq!['a', 'u', 't', 'o'] {
        Some(Theme::Auto)
    } else if l == seq!['d', 'a', 'r', 'k'] {
        Some(Theme::Dark)
    } else if l == seq!['l', 'i', 'g', 'h', 't'] {
        Some(Theme::Light)
    } else {
        None
    }
}

impl Theme {
    /// The concrete theme for `Auto` given the value of `COLORFGBG` (empty when unset);
    /// a concrete theme stays as it is.
    pub fn resolved(self, colorfgbg: &str) -> (r: Theme)
        ensures
            r == resolve_theme(self, colorfgbg@),
    {
        match self {
            Theme::Auto => {
                let s = chars_of(colorfgbg);
                let mut i = s.len();
                proof {
                    assert(s@.take(s@.len() as int) == s@);
                    assert(s@.subrange(s@.len() as int, s@.len() as int) == Seq::<char>::empty());
                    assert(after_last_semicolon(s@) == after_last_semicolon(s@.take(i as int)) + s@.subrange(i as int, s@.len() as int));
                }
                while i > 0 && s[i - 1] != ';'
                    invariant
                        0 <= i <= s@.len(),
                        after_last_semicolon(s@) == after_last_semicolon(s@.take(i as int)) + s@.subrange(i as int, s@.len() as int),
                    decreases i,
                {
                    proof {
                        let t = s@.take(i as int);
                        assert(t.drop_last() == s@.take(i - 1));
                        assert(t.last() == s@[i - 1]);
                        assert(after_last_semicolon(t) == after_last_semicolon(s@.take(i - 1)).push(s@[i - 1]));
                        assert(s@.subrange(i - 1, s@.len() as int) == seq![s@[i - 1]] + s@.subrange(i as int, s@.len() as int));
                        assert(after_last_semicolon(s@.take(i - 1)).push(s@[i - 1]) + s@.subrange(i as int, s@.len() as int)
                            == after_last_semicolon(s@.take(i - 1)) + s@.subrange(i - 1, s@.len() as int));
                    }
                    i = i - 1;
                }
                proof {
                    assert(s@.take(s@.len() as int) == s@);
                    if i > 0 {
                        assert(s@.take(i as int).last() == ';');
                    }
                    assert(after_last_semicolon(s@.take(i as int)) == Seq::<char>::empty());
                    assert(after_last_semicolon(s@) == s@.subrange(i as int, s@.len() as int));
                }
                let mut rest: Vec<char> = Vec::new();
                let mut j = i;
                while j < s.len()
                    invariant
                        i <= j <= s@.len(),
                        rest@ == s@.subrange(i as int, j as int),
                    decreases s@.len() - j,
                {
                    rest.push(s[j]);
                    j = j + 1;
                }
                match parse_u8_exec(rest.as_slice()) {
                    Some(c) => if c <= 6 || c == 8 {
                        Theme::Dark
                    } else {
                        Theme::Light
                    },
                    None => Theme::Dark,
                }
            },
            other => other,
        }
    }

    /// Parses a theme name (`auto`, `dark` or `light`, in any ASCII case); another name
    /// is refused with a message that quotes it in lower case.
    pub fn parse(value: &str) -> (r: Result<Theme, String>)
        ensures
            match r {
                Ok(t) => theme_name(value@) == Some(t),
                Err(m) => theme_name(value@) is None && m@ == unknown_theme_message(value@),
            },
    {
        let s = chars_of(value);
        let l = lower_ascii_range(s.as_slice(), 0, s.len());
        assert(s@.subrange(0, s@.len() as int) == s@);
        let auto = ['a', 'u', 't', 'o'];
        let dark = ['d', 'a', 'r', 'k'];
        let light = ['l', 'i', 'g', 'h', 't'];
        proof {
            assert(auto@ == seq!['a', 'u', 't', 'o']);
            assert(dark@ == seq!['d', 'a', 'r', 'k']);
            assert(light@ == seq!['l', 'i', 'g', 'h', 't']);
        }
        if same_chars(l.as_slice(), &auto) {
            Ok(Theme::Auto)
        } else if same_chars(l.as_slice(), &dark) {
            Ok(Theme::Dark)
        } else if same_chars(l.as_slice(), &light) {
            Ok(Theme::Light)
        } else {
            let mut m = String::from_str("unknown theme '");
            proof { reveal_strlit("unknown theme '"); }
            let n = l.len();
            crate::text::push_range(&mut m, l.as_slice(), 0, n);
            assert(l@.subrange(0, n as int) == l@);
            m.append("'; use auto, dark, or light");
            proof { reveal_strlit("'; use auto, dark, or light"); }
            Err(m)
        }
    }
}

impl core::str::FromStr for Theme {
    type Err = String;

    fn from_str(value: &str) -> (r: Result<Theme, String>)
        ensures
            match r {
                Ok(t) => theme_name(value@) == Some(t),
                Err(m) => theme_name(value@) is None && m@ == unknown_theme_message(value@),
            },
    {
        Theme::parse(value)
    }
}

} // verus!
