//! Settings: their defaults, the `GLOW_*` environment variables that override them, and
//! where the configuration file is looked for. Reading files and the environment is the
//! caller's part.

use vstd::prelude::*;
use crate::render::{all_digits, decimal, is_digit, lemma_decimal_grows, theme_name, unknown_theme_message, without_plus, Theme};
use crate::calls::{path_with_extension, with_extension};
use crate::text::{ascii_lower, chars_of, lower_ascii_range, same_chars, string_of, trim, trim_bounds, CharSet};

verus! {

/// The settings of the renderers and the browser.
#[derive(Clone, Copy, Debug, PartialEq, Eq, Structural)]
pub struct Config {
    pub theme: Theme,
    /// Render width; 0 means the terminal's width.
    pub width: usize,
    pub pager: bool,
    pub tui: bool,
    pub include_hidden: bool,
    pub line_numbers: bool,
    pub preserve_newlines: bool,
    pub mouse: bool,
}

pub open spec fn default_config() -> Config {
    Config {
        theme: Theme::Auto,
        width: 0,
        pager: false,
        tui: false,
        include_hidden: false,
        line_numbers: false,
        preserve_newlines: false,
        mouse: false,
    }
}

impl Default for Config {
    fn default() -> (c: Config)
        ensures
            c == default_config(),
    {
        Config {
            theme: Theme::Auto,
            width: 0,
            pager: false,
            tui: false,
            include_hidden: false,
            line_numbers: false,
            preserve_newlines: false,
            mouse: false,
        }
    }
}

/// The `GLOW_*` variables as the environment holds them (`None` when unset).
#[derive(Clone, Debug)]
pub struct Environment {
    pub style: Option<String>,
    pub width: Option<String>,
    pub pager: Option<String>,
    pub tui: Option<String>,
    pub all: Option<String>,
    pub line_numbers: Option<String>,
    pub preserve_newlines: Option<String>,
    pub mouse: Option<String>,
}

pub open spec fn opt_view(o: Option<String>) -> Option<Seq<char>> {
    match o {
        Some(s) => Some(s@),
        None => None,
    }
}

/// A variable that counts as set: present and not blank.
pub open spec fn set_value(v: Option<Seq<char>>) -> Option<Seq<char>> {
    match v {
        Some(s) => if trim(s).len() > 0 {
            Some(s)
        } else {
            None
        },
        None => None,
    }
}

/// A boolean variable: `1`, `true`, `yes`, `on` and `0`, `false`, `no`, `off`, in any
/// ASCII case.
pub open spec fn bool_word(s: Seq<char>) -> Option<bool> {
    let l = ascii_lower(s);
    if l == "1"@ || l == "true"@ || l == "yes"@ || l == "on"@ {
        Some(true)
    } else if l == "0"@ || l == "false"@ || l == "no"@ || l == "off"@ {
        Some(false)
    } else {
        None
    }
}

/// `usize::from_str`: an optional `+` and at least one decimal digit, at most
/// `usize::MAX`.
pub open spec fn parse_usize(s: Seq<char>) -> Option<usize> {
    let d = without_plus(s);
    if d.len() == 0 || !all_digits(d) {
        None
    } else if decimal(d) <= usize::MAX {
        Some(decimal(d) as usize)
    } else {
        None
    }
}

/// The message of a failed `usize` parse, as `ParseIntError` writes it.
pub open spec fn parse_usize_error(s: Seq<char>) -> Seq<char> {
    let d = without_plus(s);
    if s.len() == 0 {
        "cannot parse integer from empty string"@
    } else if d.len() > 0 && all_digits(d) {
        "number too large to fit in target type"@
    } else {
        "invalid digit found in string"@
    }
}

/// A boolean setting after variable `name` with value `v`.
pub open spec fn bool_setting(current: bool, name: Seq<char>, v: Option<Seq<char>>) -> Result<bool, Seq<char>> {
    match set_value(v) {
        None => Ok(current),
        Some(s) => match bool_word(s) {
            Some(b) => Ok(b),
            None => Err(name + " must be true or false"@),
        },
    }
}

/// The settings after the environment is applied, in this order: `GLOW_STYLE` (any value,
/// blank included, must name a theme), `GLOW_WIDTH` (a number, when set), then the
/// booleans `GLOW_PAGER`, `GLOW_TUI`, `GLOW_ALL`, `GLOW_SHOWLINENUMBERS`,
/// `GLOW_PRESERVENEWLINES` and `GLOW_MOUSE`. The first bad value is the error.
pub open spec fn with_environment(c: Config, e: Environment) -> Result<Config, Seq<char>> {
    let theme = match opt_view(e.style) {
        Some(s) => match theme_name(s) {
            Some(t) => Ok(t),
            None => Err(unknown_theme_message(s)),
        },
        None => Ok(c.theme),
    };
    let width = match set_value(opt_view(e.width)) {
        Some(s) => match parse_usize(s) {
            Some(w) => Ok(w),
            None => Err("GLOW_WIDTH must be a number: "@ + parse_usize_error(s)),
        },
        None => Ok(c.width),
    };
    let pager = bool_setting(c.pager, "GLOW_PAGER"@, opt_view(e.pager));
    let tui = bool_setting(c.tui, "GLOW_TUI"@, opt_view(e.tui));
    let all = bool_setting(c.include_hidden, "GLOW_ALL"@, opt_view(e.all));
    let numbers = bool_setting(c.line_numbers, "GLOW_SHOWLINENUMBERS"@, opt_view(e.line_numbers));
    let newlines = bool_setting(c.preserve_newlines, "GLOW_PRESERVENEWLINES"@, opt_view(e.preserve_newlines));
    let mouse = bool_setting(c.mouse, "GLOW_MOUSE"@, opt_view(e.mouse));
    if theme is Err {
        Err(theme->Err_0)
    } else if width is Err {
        Err(width->Err_0)
    } else if pager is Err {
        Err(pager->Err_0)
    } else if tui is Err {
        Err(tui->Err_0)
    } else if all is Err {
        Err(all->Err_0)
    } else if numbers is Err {
        Err(numbers->Err_0)
    } else if newlines is Err {
        Err(newlines->Err_0)
    } else if mouse is Err {
        Err(mouse->Err_0)
    } else {
        Ok(
            Config {
                theme: theme->Ok_0,
                width: width->Ok_0,
                pager: pager->Ok_0,
                tui: tui->Ok_0,
                include_hidden: all->Ok_0,
                line_numbers: numbers->Ok_0,
                preserve_newlines: newlines->Ok_0,
                mouse: mouse->Ok_0,
            },
        )
    }
}

fn is_set(v: &Option<String>) -> (r: Option<Vec<char>>)
    ensures
        match r {
            Some(c) => set_value(opt_view(*v)) == Some(c@),
            None => set_value(opt_view(*v)) is None,
        },
{
    match v {
        Some(s) => {
            let c = chars_of(s.as_str());
            let (a, b) = trim_bounds(c.as_slice(), 0, c.len(), CharSet::Whitespace);
            assert(c@.subrange(0, c@.len() as int) =~= c@);
            if a < b {
                Some(c)
            } else {
                None
            }
        },
        None => None,
    }
}

fn word_is(l: &[char], w: &str) -> (r: bool)
    ensures
        r == (l@ == w@),
{
    let c = chars_of(w);
    same_chars(l, c.as_slice())
}

fn parse_bool_word(s: &[char]) -> (r: Option<bool>)
    ensures
        r == bool_word(s@),
{
    assert(s@.subrange(0, s@.len() as int) =~= s@);
    let l = lower_ascii_range(s, 0, s.len());
    let l = l.as_slice();
    if word_is(l, "1") || word_is(l, "true") || word_is(l, "yes") || word_is(l, "on") {
        Some(true)
    } else if word_is(l, "0") || word_is(l, "false") || word_is(l, "no") || word_is(l, "off") {
        Some(false)
    } else {
        None
    }
}

fn parse_usize_exec(s: &[char]) -> (r: Result<usize, String>)
    ensures
        match r {
            Ok(w) => parse_usize(s@) == Some(w),
            Err(m) => parse_usize(s@) is None && m@ == parse_usize_error(s@),
        },
{
    if s.len() == 0 {
        return Err(String::from_str("cannot parse integer from empty string"));
    }
    let start: usize = if s[0] == '+' {
        1
    } else {
        0
    };
    let ghost d = without_plus(s@);
    assert(d =~= s@.subrange(start as int, s@.len() as int));
    if start == s.len() {
        return Err(String::from_str("invalid digit found in string"));
    }
    let mut i = start;
    while i < s.len()
        invariant
            start <= i <= s@.len(),
            d == s@.subrange(start as int, s@.len() as int),
            d == without_plus(s@),
            forall|j: int| start <= j < i ==> is_digit(#[trigger] s@[j]),
        decreases s@.len() - i,
    {
        if !('0' <= s[i] && s[i] <= '9') {
            assert(d[i - start] == s@[i as int]);
            assert(!all_digits(d));
            return Err(String::from_str("invalid digit found in string"));
        }
        i = i + 1;
    }
    assert forall|j: int| 0 <= j < d.len() implies is_digit(#[trigger] d[j]) by {
        assert(d[j] == s@[start + j]);
    }
    let mut acc: usize = 0;
    let mut i = start;
    while i < s.len()
        invariant
            start <= i <= s@.len(),
            d == s@.subrange(start as int, s@.len() as int),
            d == without_plus(s@),
            forall|j: int| 0 <= j < d.len() ==> is_digit(#[trigger] d[j]),
            acc == decimal(d.take(i - start)),
        decreases s@.len() - i,
    {
        proof {
            assert(d[i - start] == s@[i as int]);
            assert(d.take(i - start + 1).drop_last() == d.take(i - start));
            assert(d.take(i - start + 1).last() == s@[i as int]);
        }
        let digit = ((s[i] as u32) - 48) as usize;
        if acc > (usize::MAX - digit) / 10 {
            proof {
                assert(decimal(d.take(i - start + 1)) == acc * 10 + digit);
                assert(acc * 10 + digit > usize::MAX) by (nonlinear_arith)
                    requires
                        acc > (usize::MAX - digit) / 10,
                        digit <= 9,
                ;
                lemma_decimal_grows(d, i - start + 1);
            }
            return Err(String::from_str("number too large to fit in target type"));
        }
        proof {
            assert(acc * 10 + digit <= usize::MAX) by (nonlinear_arith)
                requires
                    acc <= (usize::MAX - digit) / 10,
                    digit <= 9,
            ;
        }
        acc = acc * 10 + digit;
        i = i + 1;
    }
    assert(d.take(d.len() as int) == d);
    Ok(acc)
}

pub fn apply_bool_env(current: bool, name: &str, v: &Option<String>) -> (r: Result<bool, String>)
    ensures
        match r {
            Ok(b) => bool_setting(current, name@, opt_view(*v)) == Ok::<bool, Seq<char>>(b),
            Err(m) => bool_setting(current, name@, opt_view(*v)) == Err::<bool, Seq<char>>(m@),
        },
{
    match is_set(v) {
        None => Ok(current),
        Some(c) => match parse_bool_word(c.as_slice()) {
            Some(b) => Ok(b),
            None => {
                let mut m = String::from_str(name);
                m.append(" must be true or false");
                Err(m)
            },
        },
    }
}

impl Config {
    /// These settings with the `GLOW_*` variables of `env` applied (see
    /// `with_environment`).
    #[verifier::rlimit(60)]
    pub fn apply_environment(self, env: &Environment) -> (r: Result<Config, String>)
        ensures
            match r {
                Ok(c) => with_environment(self, *env) == Ok::<Config, Seq<char>>(c),
                Err(m) => with_environment(self, *env) == Err::<Config, Seq<char>>(m@),
            },
    {
        let theme = match &env.style {
            Some(s) => match Theme::parse(s.as_str()) {
                Ok(t) => t,
                Err(m) => return Err(m),
            },
            None => self.theme,
        };
        let width = match is_set(&env.width) {
            Some(w) => match parse_usize_exec(w.as_slice()) {
                Ok(n) => n,
                Err(why) => {
                    let mut m = String::from_str("GLOW_WIDTH must be a number: ");
                    m.append(why.as_str());
                    return Err(m);
                },
            },
            None => self.width,
        };
        let pager = match apply_bool_env(self.pager, "GLOW_PAGER", &env.pager) {
            Ok(b) => b,
            Err(m) => return Err(m),
        };
        let tui = match apply_bool_env(self.tui, "GLOW_TUI", &env.tui) {
            Ok(b) => b,
            Err(m) => return Err(m),
        };
        let all = match apply_bool_env(self.include_hidden, "GLOW_ALL", &env.all) {
            Ok(b) => b,
            Err(m) => return Err(m),
        };
        let line_numbers = match apply_bool_env(self.line_numbers, "GLOW_SHOWLINENUMBERS", &env.line_numbers) {
            Ok(b) => b,
            Err(m) => return Err(m),
        };
        let preserve_newlines = match apply_bool_env(
            self.preserve_newlines,
            "GLOW_PRESERVENEWLINES",
            &env.preserve_newlines,
        ) {
            Ok(b) => b,
            Err(m) => return Err(m),
        };
        let mouse = match apply_bool_env(self.mouse, "GLOW_MOUSE", &env.mouse) {
            Ok(b) => b,
            Err(m) => return Err(m),
        };
        Ok(Config { theme, width, pager, tui, include_hidden: all, line_numbers, preserve_newlines, mouse })
    }
}

// ---------------------------------------------------------------- where the file is

/// `dir` joined with the relative path `file` (as `Path::join` joins them).
pub open spec fn joined(dir: Seq<char>, file: Seq<char>) -> Seq<char> {
    if dir.len() == 0 || dir.last() == '/' {
        dir + file
    } else {
        dir + seq!['/'] + file
    }
}

fn join_path(dir: &str, file: &str) -> (r: String)
    ensures
        r@ == joined(dir@, file@),
{
    let d = chars_of(dir);
    let mut r = String::from_str(dir);
    if d.len() > 0 && d[d.len() - 1] != '/' {
        crate::calls::push_char(&mut r, '/');
    }
    r.append(file);
    r
}

/// The default configuration file: `glow.yml` in `GLOW_CONFIG_HOME`, else `glow/glow.yml`
/// in `XDG_CONFIG_HOME`, else in the platform's configuration folder (or `.`). Blank
/// variables count as unset.
pub open spec fn config_path_for(glow_home: Option<Seq<char>>, xdg_home: Option<Seq<char>>, config_dir: Option<Seq<char>>) -> Seq<char> {
    match set_value(glow_home) {
        Some(d) => joined(d, "glow.yml"@),
        None => match set_value(xdg_home) {
            Some(d) => joined(d, "glow/glow.yml"@),
            None => joined(
                match config_dir {
                    Some(d) => d,
                    None => "."@,
                },
                "glow/glow.yml"@,
            ),
        },
    }
}

/// The default configuration file for these variable values and configuration folder
/// (see `config_path_for`).
pub fn default_config_path(glow_home: &Option<String>, xdg_home: &Option<String>, config_dir: &Option<String>) -> (r: String)
    ensures
        r@ == config_path_for(opt_view(*glow_home), opt_view(*xdg_home), opt_view(*config_dir)),
{
    if is_set(glow_home).is_some() {
        let d = match glow_home {
            Some(d) => d,
            None => return String::new(),
        };
        return join_path(d.as_str(), "glow.yml");
    }
    if is_set(xdg_home).is_some() {
        let d = match xdg_home {
            Some(d) => d,
            None => return String::new(),
        };
        return join_path(d.as_str(), "glow/glow.yml");
    }
    match config_dir {
        Some(d) => join_path(d.as_str(), "glow/glow.yml"),
        None => join_path(".", "glow/glow.yml"),
    }
}

/// The configuration file in use: the default file when it is a file, else the same path
/// with a `.yaml` extension when that is a file.
pub open spec fn config_file_choice(preferred: Seq<char>, preferred_is_file: bool, alternate_is_file: bool) -> Option<Seq<char>> {
    if preferred_is_file {
        Some(preferred)
    } else if alternate_is_file {
        Some(path_with_extension(preferred, "yaml"@))
    } else {
        None
    }
}

/// Finds the configuration file, given whether the default path and its `.yaml` twin are
/// files (see `config_file_choice`).
pub fn find_config_file(preferred: &str, preferred_is_file: bool, alternate_is_file: bool) -> (r: Option<String>)
    ensures
        opt_view(r) == config_file_choice(preferred@, preferred_is_file, alternate_is_file),
{
    if preferred_is_file {
        Some(String::from_str(preferred))
    } else if alternate_is_file {
        proof {
            reveal_strlit("yaml");
            assert("yaml"@ =~= seq!['y', 'a', 'm', 'l']);
        }
        Some(with_extension(preferred, "yaml"))
    } else {
        None
    }
}

} // verus!
