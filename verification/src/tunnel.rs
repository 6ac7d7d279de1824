//! Cloudflare Quick Tunnel: recognising the public URL that `cloudflared` prints, and the
//! decisions of the startup loop. Running the process is the caller's part.

use vstd::prelude::*;
use crate::calls::{parse_url, parsed_url};
use crate::text::{chars_of, dec, join_strings, join_with, lead, push_decimal, skip_set, string_of,
    string_views, trim, trim_bounds, trim_by, CharSet};

verus! {

/// The parts of a parsed URL that the tunnel check reads.
#[derive(Debug)]
pub struct UrlParts {
    pub scheme: String,
    pub username: String,
    pub password: Option<String>,
    pub host: Option<String>,
    pub port: Option<u16>,
    pub path: String,
    pub query: Option<String>,
    pub fragment: Option<String>,
}

pub struct UrlPartsV {
    pub scheme: Seq<char>,
    pub username: Seq<char>,
    pub password: Option<Seq<char>>,
    pub host: Option<Seq<char>>,
    pub port: Option<u16>,
    pub path: Seq<char>,
    pub query: Option<Seq<char>>,
    pub fragment: Option<Seq<char>>,
}

pub open spec fn text_of(o: Option<String>) -> Option<Seq<char>> {
    match o {
        Some(s) => Some(s@),
        None => None,
    }
}

impl View for UrlParts {
    type V = UrlPartsV;

    open spec fn view(&self) -> UrlPartsV {
        UrlPartsV {
            scheme: self.scheme@,
            username: self.username@,
            password: text_of(self.password),
            host: text_of(self.host),
            port: self.port,
            path: self.path@,
            query: text_of(self.query),
            fragment: text_of(self.fragment),
        }
    }
}

pub open spec fn parts_view(p: Option<UrlParts>) -> Option<UrlPartsV> {
    match p {
        Some(u) => Some(u@),
        None => None,
    }
}

pub open spec fn tunnel_suffix() -> Seq<char> {
    ".trycloudflare.com"@
}

pub open spec fn https_prefix() -> Seq<char> {
    "https://"@
}

/// A character allowed in a Quick Tunnel label: a lower-case ASCII letter, a digit or `-`.
pub open spec fn is_label_char(c: char) -> bool {
    ('a' <= c && c <= 'z') || ('0' <= c && c <= '9') || c == '-'
}

/// A single DNS label of at most 63 characters that neither starts nor ends with `-`.
pub open spec fn valid_label(l: Seq<char>) -> bool {
    &&& 0 < l.len() <= 63
    &&& l[0] != '-'
    &&& l.last() != '-'
    &&& forall|i: int| 0 <= i < l.len() ==> is_label_char(#[trigger] l[i])
}

/// `https://<label>.trycloudflare.com`.
pub open spec fn tunnel_origin(label: Seq<char>) -> Seq<char> {
    https_prefix() + label + tunnel_suffix()
}

/// An `https` URL with no user, password, port, query or fragment and the root path.
pub open spec fn bare_https(p: UrlPartsV) -> bool {
    &&& p.scheme == "https"@
    &&& p.username.len() == 0
    &&& p.password is None
    &&& p.port is None
    &&& p.query is None
    &&& p.fragment is None
    &&& p.path == "/"@
}

/// The host without `.trycloudflare.com`, where it ends so.
pub open spec fn host_label(h: Seq<char>) -> Option<Seq<char>> {
    let n = tunnel_suffix().len();
    if h.len() >= n && h.skip(h.len() - n) == tunnel_suffix() {
        Some(h.take(h.len() - n))
    } else {
        None
    }
}

/// The origin that `candidate` names, given how it parses: a bare `https` URL on a single
/// label below `trycloudflare.com`, written exactly as its origin (a trailing `/` aside).
pub open spec fn checked_origin(candidate: Seq<char>, parsed: Option<UrlPartsV>) -> Option<Seq<char>> {
    match parsed {
        Some(p) => if bare_https(p) {
            match p.host {
                Some(h) => match host_label(h) {
                    Some(l) => if valid_label(l) && (candidate == tunnel_origin(l) || candidate
                        == tunnel_origin(l).push('/')) {
                        Some(tunnel_origin(l))
                    } else {
                        None
                    },
                    None => None,
                },
                None => None,
            }
        } else {
            None
        },
        None => None,
    }
}

pub open spec fn validated_origin(candidate: Seq<char>) -> Option<Seq<char>> {
    checked_origin(candidate, parsed_url(candidate))
}

/// The first whitespace-separated token of `s` that, without decoration characters
/// around it, is a Quick Tunnel origin.
pub open spec fn origin_in(s: Seq<char>) -> Option<Seq<char>>
    decreases s.len(),
{
    let a = lead(s, CharSet::AsciiWhitespace);
    proof {
        crate::text::lemma_lead_bounded(s, CharSet::AsciiWhitespace);
    }
    let rest = s.skip(a as int);
    if rest.len() == 0 {
        None
    } else {
        let w = lead(rest, CharSet::NotAsciiWhitespace);
        proof {
            crate::text::lemma_lead_bounded(rest, CharSet::NotAsciiWhitespace);
            assert(w >= 1);
        }
        match validated_origin(trim_by(rest.take(w as int), CharSet::Decoration)) {
            Some(o) => Some(o),
            None => origin_in(rest.skip(w as int)),
        }
    }
}

/// Every accepted origin is `https://<label>.trycloudflare.com` for a valid label.
pub proof fn lemma_origin_shape(candidate: Seq<char>, parsed: Option<UrlPartsV>)
    ensures
        checked_origin(candidate, parsed) matches Some(o) ==> exists|l: Seq<char>| valid_label(l) && o
            == tunnel_origin(l),
{
    match parsed {
        Some(p) => match p.host {
            Some(h) => match host_label(h) {
                Some(l) => {
                    if checked_origin(candidate, parsed) is Some {
                        assert(valid_label(l) && checked_origin(candidate, parsed)->0 == tunnel_origin(l));
                    }
                },
                None => {},
            },
            None => {},
        },
        None => {},
    }
}

fn lit_chars(s: &str) -> (v: Vec<char>)
    ensures
        v@ == s@,
{
    chars_of(s)
}

fn is_label_chars(s: &[char], a: usize, b: usize) -> (r: bool)
    requires
        a <= b <= s@.len(),
    ensures
        r == valid_label(s@.subrange(a as int, b as int)),
{
    let ghost l = s@.subrange(a as int, b as int);
    if a == b || b - a > 63 || s[a] == '-' || s[b - 1] == '-' {
        return false;
    }
    let mut i = a;
    while i < b
        invariant
            a <= i <= b <= s@.len(),
            l == s@.subrange(a as int, b as int),
            forall|j: int| 0 <= j < i - a ==> is_label_char(#[trigger] l[j]),
        decreases b - i,
    {
        let c = s[i];
        if !(('a' <= c && c <= 'z') || ('0' <= c && c <= '9') || c == '-') {
            assert(l[i - a] == c);
            return false;
        }
        assert(l[i - a] == c);
        i = i + 1;
    }
    true
}

/// The Quick Tunnel origin named by `candidate`, given the parse of `candidate` (see
/// `checked_origin`).
pub fn trycloudflare_origin(candidate: &str, parsed: &Option<UrlParts>) -> (r: Option<String>)
    ensures
        text_of(r) == checked_origin(candidate@, parts_view(*parsed)),
{
    let p = match parsed {
        Some(p) => p,
        None => return None,
    };
    proof {
        reveal_strlit("https");
        reveal_strlit("/");
    }
    let scheme = chars_of(p.scheme.as_str());
    let path = chars_of(p.path.as_str());
    let user = chars_of(p.username.as_str());
    let https = ['h', 't', 't', 'p', 's'];
    let slash = ['/'];
    assert(https@ =~= "https"@);
    assert(slash@ =~= "/"@);
    if !crate::text::same_chars(scheme.as_slice(), &https) || user.len() != 0 || p.password.is_some()
        || p.port.is_some() || p.query.is_some() || p.fragment.is_some() || !crate::text::same_chars(
        path.as_slice(),
        &slash,
    ) {
        return None;
    }
    let host = match &p.host {
        Some(h) => chars_of(h.as_str()),
        None => return None,
    };
    let suffix = lit_chars(".trycloudflare.com");
    let n = suffix.len();
    let hl = host.len();
    if hl < n || !crate::text::range_is(host.as_slice(), hl - n, hl, suffix.as_slice()) {
        assert(hl >= n ==> host@.skip(hl - n) =~= host@.subrange(hl - n, hl as int));
        return None;
    }
    assert(host@.skip(hl - n) =~= host@.subrange(hl - n, hl as int));
    let label_end = hl - n;
    if !is_label_chars(host.as_slice(), 0, label_end) {
        assert(host@.take(label_end as int) =~= host@.subrange(0, label_end as int));
        return None;
    }
    assert(host@.take(label_end as int) =~= host@.subrange(0, label_end as int));
    let mut origin = String::from_str("https://");
    let label = string_of(host.as_slice(), 0, label_end);
    origin.append(label.as_str());
    origin.append(".trycloudflare.com");
    let mut with_slash = String::from_str(origin.as_str());
    crate::calls::push_char(&mut with_slash, '/');
    let cand = chars_of(candidate);
    let o = chars_of(origin.as_str());
    let os = chars_of(with_slash.as_str());
    if crate::text::same_chars(cand.as_slice(), o.as_slice()) || crate::text::same_chars(
        cand.as_slice(),
        os.as_slice(),
    ) {
        Some(origin)
    } else {
        None
    }
}

/// The Quick Tunnel origin that `candidate` names, if it is one (see `validated_origin`).
fn validate_trycloudflare_url(candidate: &str) -> (r: Option<String>)
    ensures
        text_of(r) == validated_origin(candidate@),
{
    let parsed = parse_url(candidate);
    trycloudflare_origin(candidate, &parsed)
}

/// Extracts and validates the Cloudflare Quick Tunnel URL from one log line: the first
/// whitespace-separated token that, stripped of the decoration characters `|()[]{}<>,;'"`
/// around it, is exactly `https://<label>.trycloudflare.com` (or that with a trailing
/// `/`). User info, ports, paths, queries, fragments, nested hosts, underscores and
/// lookalike suffixes are rejected.
pub fn extract_trycloudflare_url(line: &str) -> (r: Option<String>)
    ensures
        text_of(r) == origin_in(line@),
        r matches Some(o) ==> exists|l: Seq<char>| valid_label(l) && o@ == tunnel_origin(l),
{
    let s = chars_of(line);
    let len = s.len();
    let mut i: usize = 0;
    assert(s@.skip(0) =~= s@);
    while i < len
        invariant
            len == s@.len(),
            i <= len,
            origin_in(s@.skip(i as int)) == origin_in(line@),
            s@ == line@,
        decreases len - i,
    {
        let ghost rest0 = s@.skip(i as int);
        let a = skip_set(s.as_slice(), i, len, CharSet::AsciiWhitespace);
        assert(s@.subrange(i as int, len as int) =~= rest0);
        let ghost rest = rest0.skip(a - i);
        assert(rest =~= s@.subrange(a as int, len as int));
        if a == len {
            assert(rest.len() == 0);
            return None;
        }
        let b = skip_set(s.as_slice(), a, len, CharSet::NotAsciiWhitespace);
        let ghost w = b - a;
        assert(rest.take(w) =~= s@.subrange(a as int, b as int));
        let (c, d) = trim_bounds(s.as_slice(), a, b, CharSet::Decoration);
        let cand = string_of(s.as_slice(), c, d);
        match validate_trycloudflare_url(cand.as_str()) {
            Some(o) => {
                proof {
                    lemma_origin_shape(cand@, parsed_url(cand@));
                }
                return Some(o);
            },
            None => {},
        }
        assert(rest.skip(w) =~= s@.skip(b as int));
        i = b;
    }
    assert(s@.skip(len as int) =~= Seq::<char>::empty());
    None
}

// ---------------------------------------------------------------- startup

/// At most this many recent lines of output are kept for error messages.
pub const MAX_DIAGNOSTIC_LINES: usize = 12;

/// Each kept line is cut to this many characters.
pub const MAX_DIAGNOSTIC_CHARS: usize = 240;

pub open spec fn diag_view(v: Seq<String>) -> Seq<Seq<char>> {
    string_views(v)
}

/// The recent output after `line` was seen: blank lines are skipped; the oldest line
/// leaves when the list is full; the line is kept trimmed and cut to its first 240
/// characters.
pub open spec fn remembered(d: Seq<Seq<char>>, line: Seq<char>) -> Seq<Seq<char>> {
    let t = trim(line);
    if t.len() == 0 {
        d
    } else {
        let kept = if d.len() == MAX_DIAGNOSTIC_LINES { d.drop_first() } else { d };
        kept.push(if t.len() > MAX_DIAGNOSTIC_CHARS { t.take(MAX_DIAGNOSTIC_CHARS as int) } else { t })
    }
}

/// Keeps a line of `cloudflared` output for error messages (see `remembered`). A list of
/// at most 12 lines stays so, and every kept line holds 1 to 240 characters.
pub fn remember_diagnostic(lines: &mut Vec<String>, line: String)
    ensures
        diag_view(final(lines)@) == remembered(diag_view(old(lines)@), line@),
        old(lines)@.len() <= MAX_DIAGNOSTIC_LINES ==> final(lines)@.len() <= MAX_DIAGNOSTIC_LINES,
        (forall|i: int| 0 <= i < old(lines)@.len() ==> 0 < (#[trigger] old(lines)@[i])@.len() <= MAX_DIAGNOSTIC_CHARS)
            ==> (forall|i: int| 0 <= i < final(lines)@.len() ==> 0 < (#[trigger] final(lines)@[i])@.len() <= MAX_DIAGNOSTIC_CHARS),
{
    let c = chars_of(line.as_str());
    let (a, b) = trim_bounds(c.as_slice(), 0, c.len(), CharSet::Whitespace);
    assert(c@.subrange(0, c@.len() as int) =~= c@);
    if a == b {
        return;
    }
    let ghost before = diag_view(lines@);
    if lines.len() == MAX_DIAGNOSTIC_LINES {
        lines.remove(0);
        assert(diag_view(lines@) =~= before.drop_first());
    }
    let end = if b - a > MAX_DIAGNOSTIC_CHARS { a + MAX_DIAGNOSTIC_CHARS } else { b };
    let kept = string_of(c.as_slice(), a, end);
    let ghost mid = diag_view(lines@);
    assert(kept@ =~= (if b - a > MAX_DIAGNOSTIC_CHARS {
        trim(line@).take(MAX_DIAGNOSTIC_CHARS as int)
    } else {
        trim(line@)
    }));
    lines.push(kept);
    assert(diag_view(lines@) =~= mid.push(kept@));
}

/// `; recent output: ` and the kept lines joined with ` | `, or nothing.
pub open spec fn diagnostic_suffix_of(d: Seq<Seq<char>>) -> Seq<char> {
    if d.len() == 0 {
        seq![]
    } else {
        "; recent output: "@ + join_with(d, " | "@)
    }
}

pub fn diagnostic_suffix(lines: &Vec<String>) -> (r: String)
    ensures
        r@ == diagnostic_suffix_of(diag_view(lines@)),
{
    if lines.len() == 0 {
        return String::new();
    }
    let mut r = String::from_str("; recent output: ");
    let joined = join_strings(lines, " | ");
    r.append(joined.as_str());
    r
}

/// The error when `cloudflared` exits (with the given status) before it prints a URL.
pub fn startup_exit_message(status: &str, diagnostics: &Vec<String>) -> (r: String)
    ensures
        r@ == "cloudflared exited before publishing a public URL ("@ + status@ + ")"@
            + diagnostic_suffix_of(diag_view(diagnostics@)),
{
    let mut r = String::from_str("cloudflared exited before publishing a public URL (");
    r.append(status);
    r.append(")");
    let suffix = diagnostic_suffix(diagnostics);
    r.append(suffix.as_str());
    r
}

/// The error when no URL appears within the startup timeout (`seconds` as written).
pub fn startup_timeout_message(seconds: &str, diagnostics: &Vec<String>) -> (r: String)
    ensures
        r@ == "cloudflared did not publish a trycloudflare.com URL within "@ + seconds@ + " seconds"@
            + diagnostic_suffix_of(diag_view(diagnostics@)),
{
    let mut r = String::from_str("cloudflared did not publish a trycloudflare.com URL within ");
    r.append(seconds);
    r.append(" seconds");
    let suffix = diagnostic_suffix(diagnostics);
    r.append(suffix.as_str());
    r
}

/// What happened while waiting for the tunnel's URL.
pub enum StartupEvent {
    /// A line of output.
    Line(String),
    /// The process exited, or closed its output and was reaped, with this status.
    Exited(String),
    /// The startup timeout passed; the timeout in seconds as written.
    TimedOut(String),
}

/// What the startup loop does next.
#[derive(Debug, PartialEq, Eq)]
pub enum StartupAction {
    /// Keep waiting.
    Continue,
    /// The tunnel is up at this URL.
    Ready(String),
    /// Stop the process and fail with this message.
    Fail(String),
}

/// One decision of the startup loop: a line that carries the URL ends the wait, any other
/// line is kept for diagnostics; an exit or a timeout fails with the recent output.
pub fn startup_step(diagnostics: &mut Vec<String>, event: StartupEvent) -> (r: StartupAction)
    ensures
        match event {
            StartupEvent::Line(l) => match origin_in(l@) {
                Some(o) => (r matches StartupAction::Ready(u) && u@ == o) && final(diagnostics)@
                    == old(diagnostics)@,
                None => r is Continue && diag_view(final(diagnostics)@) == remembered(
                    diag_view(old(diagnostics)@),
                    l@,
                ),
            },
            StartupEvent::Exited(status) => final(diagnostics)@ == old(diagnostics)@ && (r matches StartupAction::Fail(m)
                && m@ == "cloudflared exited before publishing a public URL ("@ + status@ + ")"@
                + diagnostic_suffix_of(diag_view(old(diagnostics)@))),
            StartupEvent::TimedOut(secs) => final(diagnostics)@ == old(diagnostics)@ && (r matches StartupAction::Fail(m)
                && m@ == "cloudflared did not publish a trycloudflare.com URL within "@ + secs@
                + " seconds"@ + diagnostic_suffix_of(diag_view(old(diagnostics)@))),
        },
{
    match event {
        StartupEvent::Line(line) => match extract_trycloudflare_url(line.as_str()) {
            Some(url) => StartupAction::Ready(url),
            None => {
                remember_diagnostic(diagnostics, line);
                StartupAction::Continue
            },
        },
        StartupEvent::Exited(status) => StartupAction::Fail(startup_exit_message(status.as_str(), diagnostics)),
        StartupEvent::TimedOut(secs) => StartupAction::Fail(startup_timeout_message(secs.as_str(), diagnostics)),
    }
}

/// The local URL the tunnel forwards to; port 0 is refused, since the server must be bound
/// first.
pub fn tunnel_local_url(port: u16) -> (r: Result<String, String>)
    ensures
        port == 0 <==> r is Err,
        r matches Ok(u) ==> u@ == "http://127.0.0.1:"@ + dec(port as nat),
        r matches Err(e) ==> e@ == "cannot start a tunnel for port 0; bind the local server first"@,
{
    if port == 0 {
        return Err(String::from_str("cannot start a tunnel for port 0; bind the local server first"));
    }
    let mut u = String::from_str("http://127.0.0.1:");
    push_decimal(&mut u, port as u64);
    Ok(u)
}

/// The arguments `cloudflared` is started with: a quick tunnel to `local_url`, without
/// automatic updates.
pub fn tunnel_arguments(local_url: &str) -> (r: Vec<String>)
    ensures
        string_views(r@) == seq!["tunnel"@, "--no-autoupdate"@, "--url"@, local_url@],
{
    let mut r: Vec<String> = Vec::new();
    r.push(String::from_str("tunnel"));
    r.push(String::from_str("--no-autoupdate"));
    r.push(String::from_str("--url"));
    r.push(String::from_str(local_url));
    assert(string_views(r@) =~= seq!["tunnel"@, "--no-autoupdate"@, "--url"@, local_url@]);
    r
}

/// The error when `cloudflared` cannot be started: a hint to install it when it was not
/// found, or the error itself. `executable` is written as `Debug` writes it.
pub fn spawn_error_message(not_found: bool, executable: &str, local_url: &str, error: &str) -> (r: String)
    ensures
        not_found ==> r@ == "cloudflared was not found (tried "@ + executable@
            + "); install it and ensure it is on PATH, then retry sharing "@ + local_url@,
        !not_found ==> r@ == "failed to start cloudflared ("@ + executable@ + ") for "@ + local_url@ + ": "@
            + error@,
{
    if not_found {
        let mut r = String::from_str("cloudflared was not found (tried ");
        r.append(executable);
        r.append("); install it and ensure it is on PATH, then retry sharing ");
        r.append(local_url);
        r
    } else {
        let mut r = String::from_str("failed to start cloudflared (");
        r.append(executable);
        r.append(") for ");
        r.append(local_url);
        r.append(": ");
        r.append(error);
        r
    }
}

// ---------------------------------------------------------------- options

/// Options used while starting a Cloudflare Quick Tunnel.
#[derive(Clone, Debug)]
pub struct TunnelOptions {
    /// Path or executable name for `cloudflared`.
    pub executable: String,
    /// How long to wait for the public URL, in seconds.
    pub startup_timeout_secs: u64,
}

impl Default for TunnelOptions {
    fn default() -> (o: TunnelOptions)
        ensures
            o.executable@ == "cloudflared"@,
            o.startup_timeout_secs == 30,
    {
        TunnelOptions { executable: String::from_str("cloudflared"), startup_timeout_secs: 30 }
    }
}

} // verus!
