//! Where a document given on the command line comes from: standard input, a file, a
//! repository shortcut for GitHub or GitLab, or an HTTP(S) URL; the requests made for
//! remote ones and the size limit they are read under.

use vstd::prelude::*;
use vstd::utf8::encode_utf8;
use crate::calls::{form_encoded, form_urlencode, parse_url, parsed_url, push_char};
use crate::paths::{file_name, file_name_range};
use crate::render::rewrite::{replace_first, replaced_first};
use crate::text::{ascii_lower, chars_of, find_char, lower_ascii_range, range_is, same_chars, string_of,
    string_views, join_strings, join_with};
use crate::tui::{contains_chars, contains_seq};
use crate::tunnel::{parts_view, UrlParts, UrlPartsV};
use crate::web::pieces_from;

verus! {

// ---------------------------------------------------------------- repository shortcuts

/// A repository whose README stands for it.
pub enum RepositoryShortcut {
    GitHub { owner: String, repo: String },
    GitLab { host: String, project: String },
}

pub enum ShortcutV {
    GitHub(Seq<char>, Seq<char>),
    GitLab(Seq<char>, Seq<char>),
}

impl View for RepositoryShortcut {
    type V = ShortcutV;

    open spec fn view(&self) -> ShortcutV {
        match self {
            RepositoryShortcut::GitHub { owner, repo } => ShortcutV::GitHub(owner@, repo@),
            RepositoryShortcut::GitLab { host, project } => ShortcutV::GitLab(host@, project@),
        }
    }
}

pub open spec fn shortcut_view(s: Option<RepositoryShortcut>) -> Option<ShortcutV> {
    match s {
        Some(x) => Some(x@),
        None => None,
    }
}

/// The URL an input is read as: the short forms `github.com/…`, `gitlab.com/…`,
/// `github://…` and `gitlab://…` completed to `https://` URLs, anything else as it is.
pub open spec fn shortcut_candidate(input: Seq<char>) -> Seq<char> {
    if "github.com/"@.is_prefix_of(input) || "gitlab.com/"@.is_prefix_of(input) || "github://"@.is_prefix_of(
        input,
    ) || "gitlab://"@.is_prefix_of(input) {
        let n = replaced_first(
            replaced_first(input, "github://"@, "https://github.com/"@),
            "gitlab://"@,
            "https://gitlab.com/"@,
        );
        if "http"@.is_prefix_of(n) {
            n
        } else {
            "https://"@ + n
        }
    } else {
        input
    }
}

/// The pieces that are not empty, in order.
pub open spec fn without_empty(ps: Seq<Seq<char>>) -> Seq<Seq<char>>
    decreases ps.len(),
{
    if ps.len() == 0 {
        seq![]
    } else {
        (if ps[0].len() > 0 {
            seq![ps[0]]
        } else {
            seq![]
        }) + without_empty(ps.drop_first())
    }
}

/// The non-empty segments of a URL path (none where the path does not begin with `/`).
pub open spec fn path_parts(path: Seq<char>) -> Seq<Seq<char>> {
    if path.len() > 0 && path[0] == '/' {
        without_empty(pieces_from(path, 1))
    } else {
        seq![]
    }
}

/// `s` with every trailing `.git` taken off (`str::trim_end_matches`).
pub open spec fn without_git_suffix(s: Seq<char>) -> Seq<char>
    decreases s.len(),
{
    if s.len() >= 4 && s.skip(s.len() - 4) == ".git"@ {
        without_git_suffix(s.take(s.len() - 4))
    } else {
        s
    }
}

/// The repository a parsed URL names: `github.com` (any ASCII case) with exactly owner and
/// repository, or a host containing `gitlab` with at least two segments and no `/-/`.
pub open spec fn shortcut_of(url: Option<UrlPartsV>) -> Option<ShortcutV> {
    match url {
        None => None,
        Some(u) => {
            let host = match u.host {
                Some(h) => h,
                None => seq![],
            };
            let parts = path_parts(u.path);
            if ascii_lower(host) == "github.com"@ && parts.len() == 2 {
                Some(ShortcutV::GitHub(parts[0], without_git_suffix(parts[1])))
            } else if contains_seq(host, "gitlab"@) && parts.len() >= 2 && !contains_seq(u.path, "/-/"@) {
                Some(ShortcutV::GitLab(host, join_with(parts, "/"@)))
            } else {
                None
            }
        },
    }
}

fn has_prefix(s: &[char], p: &str) -> (r: bool)
    ensures
        r == p@.is_prefix_of(s@),
{
    let pc = chars_of(p);
    if pc.len() > s.len() {
        return false;
    }
    let r = range_is(s, 0, pc.len(), pc.as_slice());
    r
}

fn candidate(input: &str) -> (r: String)
    ensures
        r@ == shortcut_candidate(input@),
{
    let s = chars_of(input);
    if has_prefix(s.as_slice(), "github.com/") || has_prefix(s.as_slice(), "gitlab.com/") || has_prefix(
        s.as_slice(),
        "github://",
    ) || has_prefix(s.as_slice(), "gitlab://") {
        let first = replace_first(input, "github://", "https://github.com/");
        let n = replace_first(first.as_str(), "gitlab://", "https://gitlab.com/");
        let nc = chars_of(n.as_str());
        if has_prefix(nc.as_slice(), "http") {
            n
        } else {
            let mut r = String::from_str("https://");
            r.append(n.as_str());
            r
        }
    } else {
        String::from_str(input)
    }
}

/// The non-empty segments of a URL path (see `path_parts`).
fn segments_of(path: &str) -> (v: Vec<String>)
    ensures
        string_views(v@) == path_parts(path@),
{
    let s = chars_of(path);
    let mut v: Vec<String> = Vec::new();
    if s.len() == 0 || s[0] != '/' {
        return v;
    }
    let ghost all = without_empty(pieces_from(s@, 1));
    let mut i: usize = 1;
    loop
        invariant
            1 <= i <= s@.len(),
            s@ == path@,
            s@[0] == '/',
            all == without_empty(pieces_from(s@, 1)),
            string_views(v@) + without_empty(pieces_from(s@, i as int)) == all,
        decreases s@.len() - i,
    {
        let e = find_char(s.as_slice(), '/', i);
        let ghost ps = pieces_from(s@, i as int);
        let ghost seg = s@.subrange(i as int, e as int);
        let ghost before = string_views(v@);
        assert(ps[0] == seg);
        if e > i {
            v.push(string_of(s.as_slice(), i, e));
            assert(string_views(v@) == before + seq![seg]);
        } else {
            assert(string_views(v@) == before);
        }
        if e >= s.len() {
            proof {
                assert(ps == seq![seg]);
                assert(ps.drop_first() == Seq::<Seq<char>>::empty());
                assert(without_empty(Seq::<Seq<char>>::empty()) == Seq::<Seq<char>>::empty());
                assert(without_empty(ps) == (if seg.len() > 0 { seq![seg] } else { seq![] }) + Seq::<
                    Seq<char>,
                >::empty());
                assert(string_views(v@) =~= all);
            }
            return v;
        }
        proof {
            assert(ps.drop_first() == pieces_from(s@, e + 1));
        }
        i = e + 1;
    }
}

/// `s` with every trailing `.git` taken off.
fn trim_git(s: &str) -> (r: String)
    ensures
        r@ == without_git_suffix(s@),
    decreases s@.len(),
{
    let c = chars_of(s);
    let n = c.len();
    let git = chars_of(".git");
    if n >= 4 && range_is(c.as_slice(), n - 4, n, git.as_slice()) {
        let shorter = string_of(c.as_slice(), 0, n - 4);
        assert(c@.subrange(n - 4, n as int) == s@.skip(n - 4));
        trim_git(shorter.as_str())
    } else {
        proof {
            if n >= 4 {
                assert(c@.subrange(n - 4, n as int) == s@.skip(n - 4));
            }
        }
        String::from_str(s)
    }
}

impl RepositoryShortcut {
    /// The repository that a parsed URL names (see `shortcut_of`).
    pub fn from_url(url: Option<UrlParts>) -> (r: Option<RepositoryShortcut>)
        ensures
            shortcut_view(r) == shortcut_of(parts_view(url)),
    {
        let u = match url {
            Some(u) => u,
            None => return None,
        };
        let host = match u.host {
            Some(h) => h,
            None => String::new(),
        };
        let hc = chars_of(host.as_str());
        let parts = segments_of(u.path.as_str());
        let lower = lower_ascii_range(hc.as_slice(), 0, hc.len());
        assert(hc@.subrange(0, hc@.len() as int) == hc@);
        let github = chars_of("github.com");
        if same_chars(lower.as_slice(), github.as_slice()) && parts.len() == 2 {
            let owner = parts[0].clone();
            let repo = trim_git(parts[1].as_str());
            assert(string_views(parts@)[0] == owner@);
            return Some(RepositoryShortcut::GitHub { owner, repo });
        }
        let gitlab = chars_of("gitlab");
        let pc = chars_of(u.path.as_str());
        let marker = chars_of("/-/");
        if contains_chars(hc.as_slice(), gitlab.as_slice()) && parts.len() >= 2 && !contains_chars(
            pc.as_slice(),
            marker.as_slice(),
        ) {
            let project = join_strings(&parts, "/");
            return Some(RepositoryShortcut::GitLab { host, project });
        }
        None
    }

    /// The repository that a command-line input names, if any: the input (short forms
    /// completed, see `shortcut_candidate`) parsed as a URL and read by `from_url`.
    pub fn parse(input: &str) -> (r: Option<RepositoryShortcut>)
        ensures
            shortcut_view(r) == shortcut_of(parsed_url(shortcut_candidate(input@))),
    {
        let c = candidate(input);
        RepositoryShortcut::from_url(parse_url(c.as_str()))
    }
}

// ---------------------------------------------------------------- requests

/// The GitHub API request for a repository's README.
pub open spec fn github_readme_api_of(owner: Seq<char>, repo: Seq<char>) -> Seq<char> {
    "https://api.github.com/repos/"@ + owner + "/"@ + repo + "/readme"@
}

/// The name under which a GitHub README is shown.
pub open spec fn github_readme_name_of(owner: Seq<char>, repo: Seq<char>) -> Seq<char> {
    owner + "/"@ + repo + "/README.md"@
}

/// The base URL of a GitHub repository's raw files.
pub open spec fn github_raw_base_of(owner: Seq<char>, repo: Seq<char>) -> Seq<char> {
    "https://raw.githubusercontent.com/"@ + owner + "/"@ + repo + "/HEAD/"@
}

/// The GitLab API request for a project's metadata, the project path form-urlencoded.
pub open spec fn gitlab_project_api_of(host: Seq<char>, project: Seq<char>) -> Seq<char> {
    "https://"@ + host + "/api/v4/projects/"@ + form_encoded(encode_utf8(project))
}

fn joined(parts: &[&str]) -> (r: String)
    ensures
        r@ == crate::text::concat_all(parts@.map_values(|p: &str| p@)),
{
    let ghost views = parts@.map_values(|p: &str| p@);
    let mut r = String::new();
    let mut k: usize = 0;
    while k < parts.len()
        invariant
            k <= parts@.len(),
            views == parts@.map_values(|p: &str| p@),
            r@ == crate::text::concat_all(views.take(k as int)),
        decreases parts@.len() - k,
    {
        proof {
            crate::text::lemma_concat_step(views, k as int);
        }
        r.append(parts[k]);
        k = k + 1;
    }
    assert(views.take(parts@.len() as int) == views);
    r
}

impl RepositoryShortcut {
    /// The first request made for the repository's README: GitHub's README API, or
    /// GitLab's project API.
    pub fn api_url(&self) -> (r: String)
        ensures
            r@ == match self@ {
                ShortcutV::GitHub(o, p) => github_readme_api_of(o, p),
                ShortcutV::GitLab(h, p) => gitlab_project_api_of(h, p),
            },
    {
        match self {
            RepositoryShortcut::GitHub { owner, repo } => {
                let parts = ["https://api.github.com/repos/", owner.as_str(), "/", repo.as_str(), "/readme"];
                let r = joined(&parts);
                assert(parts@.map_values(|p: &str| p@) =~= seq![
                    "https://api.github.com/repos/"@,
                    owner@,
                    "/"@,
                    repo@,
                    "/readme"@,
                ]);
                reveal_with_fuel(crate::text::concat_all, 6);
                r
            },
            RepositoryShortcut::GitLab { host, project } => {
                let encoded = form_urlencode(project.as_str());
                let parts = ["https://", host.as_str(), "/api/v4/projects/", encoded.as_str()];
                let r = joined(&parts);
                assert(parts@.map_values(|p: &str| p@) =~= seq!["https://"@, host@, "/api/v4/projects/"@, encoded@]);
                reveal_with_fuel(crate::text::concat_all, 5);
                r
            },
        }
    }
}

/// The name shown for a GitHub README.
pub fn github_readme_name(owner: &str, repo: &str) -> (r: String)
    ensures
        r@ == github_readme_name_of(owner@, repo@),
{
    let parts = [owner, "/", repo, "/README.md"];
    let r = joined(&parts);
    assert(parts@.map_values(|p: &str| p@) =~= seq![owner@, "/"@, repo@, "/README.md"@]);
    reveal_with_fuel(crate::text::concat_all, 5);
    r
}

/// The base URL of a GitHub repository's raw files.
pub fn github_raw_base(owner: &str, repo: &str) -> (r: String)
    ensures
        r@ == github_raw_base_of(owner@, repo@),
{
    let parts = ["https://raw.githubusercontent.com/", owner, "/", repo, "/HEAD/"];
    let r = joined(&parts);
    assert(parts@.map_values(|p: &str| p@) =~= seq![
        "https://raw.githubusercontent.com/"@,
        owner@,
        "/"@,
        repo@,
        "/HEAD/"@,
    ]);
    reveal_with_fuel(crate::text::concat_all, 6);
    r
}

/// `s` with every `pat` (not empty), from left to right, replaced by `with`
/// (`str::replace`).
pub open spec fn replaced_all(s: Seq<char>, pat: Seq<char>, with: Seq<char>) -> Seq<char>
    decreases s.len(),
{
    if pat.len() == 0 || s.len() < pat.len() {
        s
    } else if s.take(pat.len() as int) == pat {
        with + replaced_all(s.skip(pat.len() as int), pat, with)
    } else {
        seq![s[0]] + replaced_all(s.skip(1), pat, with)
    }
}

/// The URL of a GitLab README's raw text: its `/-/blob/` parts read as `/-/raw/`.
pub fn raw_readme_url(readme_url: &str) -> (r: String)
    ensures
        r@ == replaced_all(readme_url@, "/-/blob/"@, "/-/raw/"@),
{
    let s = chars_of(readme_url);
    let pat = chars_of("/-/blob/");
    let mut out = String::new();
    let mut i: usize = 0;
    let n = s.len();
    let m = pat.len();
    assert(m == 8) by {
        reveal_strlit("/-/blob/");
    }
    assert(s@.skip(0) == s@);
    while i < n
        invariant
            i <= n,
            n == s@.len(),
            s@ == readme_url@,
            pat@ == "/-/blob/"@,
            m == pat@.len(),
            m == 8,
            out@ + replaced_all(s@.skip(i as int), pat@, "/-/raw/"@) == replaced_all(s@, pat@, "/-/raw/"@),
        decreases n - i,
    {
        let ghost rest = s@.skip(i as int);
        if n - i >= m && range_is(s.as_slice(), i, i + m, pat.as_slice()) {
            proof {
                assert(rest.take(m as int) == s@.subrange(i as int, i + m));
                assert(rest.skip(m as int) == s@.skip(i + m));
            }
            out.append("/-/raw/");
            i = i + m;
        } else {
            proof {
                if n - i >= m {
                    assert(rest.take(m as int) == s@.subrange(i as int, i + m));
                }
                assert(rest.skip(1) == s@.skip(i + 1));
                assert(rest[0] == s@[i as int]);
            }
            push_char(&mut out, s[i]);
            i = i + 1;
        }
    }
    proof {
        assert(s@.skip(n as int) == Seq::<char>::empty());
        assert(out@ + Seq::<char>::empty() == out@);
    }
    out
}

/// The name of a remote document: the last segment of its URL's path, or `README.md`
/// where that is empty.
pub open spec fn remote_name_of(path: Seq<char>) -> Seq<char> {
    if path.len() > 0 && path[0] == '/' && pieces_from(path, 1).last().len() > 0 {
        pieces_from(path, 1).last()
    } else {
        "README.md"@
    }
}

pub fn remote_name(path: &str) -> (r: String)
    ensures
        r@ == remote_name_of(path@),
{
    let s = chars_of(path);
    if s.len() == 0 || s[0] != '/' {
        return String::from_str("README.md");
    }
    let mut i: usize = 1;
    loop
        invariant
            1 <= i <= s@.len(),
            s@ == path@,
            s@[0] == '/',
            pieces_from(s@, i as int).len() > 0,
            pieces_from(s@, i as int).last() == pieces_from(s@, 1).last(),
        decreases s@.len() - i,
    {
        let e = find_char(s.as_slice(), '/', i);
        let ghost ps = pieces_from(s@, i as int);
        if e >= s.len() {
            assert(ps == seq![s@.subrange(i as int, e as int)]);
            if e > i {
                return string_of(s.as_slice(), i, e);
            }
            return String::from_str("README.md");
        }
        proof {
            let rest = pieces_from(s@, e + 1);
            assert(ps == seq![s@.subrange(i as int, e as int)] + rest);
            assert(rest.len() > 0);
            assert(ps.last() == rest.last());
        }
        i = e + 1;
    }
}

/// The name of a local document: its file name, or `document.md`.
pub open spec fn local_name_of(path: Seq<char>) -> Seq<char> {
    match file_name(path) {
        Some(n) => n,
        None => "document.md"@,
    }
}

pub fn local_name(path: &str) -> (r: String)
    ensures
        r@ == local_name_of(path@),
{
    let s = chars_of(path);
    match file_name_range(s.as_slice()) {
        Some((a, b)) => string_of(s.as_slice(), a, b),
        None => String::from_str("document.md"),
    }
}

// ---------------------------------------------------------------- limits

/// The largest remote document read, in bytes (10 MiB).
pub const MAX_REMOTE_BYTES: usize = 10485760;

/// Whether a response announcing `content_length` bytes may be read.
pub fn content_length_allowed(content_length: Option<u64>) -> (r: bool)
    ensures
        r == match content_length {
            Some(l) => l <= MAX_REMOTE_BYTES,
            None => true,
        },
{
    match content_length {
        Some(l) => l <= 10485760u64,
        None => true,
    }
}

/// The capacity reserved for a response: its announced length, at most the limit.
pub fn initial_capacity(content_length: Option<u64>) -> (r: usize)
    ensures
        r == match content_length {
            Some(l) => if l <= MAX_REMOTE_BYTES {
                l as usize
            } else {
                MAX_REMOTE_BYTES
            },
            None => 0,
        },
{
    match content_length {
        Some(l) => if l <= 10485760u64 {
            l as usize
        } else {
            MAX_REMOTE_BYTES
        },
        None => 0,
    }
}

/// Whether a chunk of `chunk` bytes may be added to the `read` bytes read so far.
pub fn chunk_allowed(read: usize, chunk: usize) -> (r: bool)
    ensures
        r == (read + chunk <= MAX_REMOTE_BYTES),
{
    read.saturating_add(chunk) <= MAX_REMOTE_BYTES
}

// ---------------------------------------------------------------- sources

/// Where a document named on the command line is read from.
pub enum SourcePlan {
    /// Standard input (`-`).
    Stdin,
    /// The file of that name.
    File,
    /// A repository's README.
    Repository(RepositoryShortcut),
    /// The HTTP(S) URL given.
    Remote,
    /// Nothing that can be read, with the reason.
    Refused(String),
}

pub enum PlanV {
    Stdin,
    File,
    Repository(ShortcutV),
    Remote,
    Refused(Seq<char>),
}

impl View for SourcePlan {
    type V = PlanV;

    open spec fn view(&self) -> PlanV {
        match self {
            SourcePlan::Stdin => PlanV::Stdin,
            SourcePlan::File => PlanV::File,
            SourcePlan::Repository(r) => PlanV::Repository(r@),
            SourcePlan::Remote => PlanV::Remote,
            SourcePlan::Refused(m) => PlanV::Refused(m@),
        }
    }
}

/// Where `source` is read from, `is_file` telling whether it names a file, given the
/// repository shortcut read from it and the URL parsed from it: `-` is standard input;
/// then a file; then a repository shortcut; then an `http` or `https` URL; any other
/// URL's scheme is refused, and text that is no URL at all is not found.
pub open spec fn plan_of_parts(
    source: Seq<char>,
    is_file: bool,
    shortcut: Option<ShortcutV>,
    parsed: Option<UrlPartsV>,
) -> PlanV {
    if source == "-"@ {
        PlanV::Stdin
    } else if is_file {
        PlanV::File
    } else if shortcut is Some {
        PlanV::Repository(shortcut->0)
    } else {
        match parsed {
            None => PlanV::Refused("source not found: "@ + source),
            Some(u) => if u.scheme == "http"@ || u.scheme == "https"@ {
                PlanV::Remote
            } else {
                PlanV::Refused(u.scheme + " is not a supported protocol"@)
            },
        }
    }
}

/// Where `source` is read from, by what the shortcut reading and the URL parser make of it.
pub open spec fn source_plan_of(source: Seq<char>, is_file: bool) -> PlanV {
    plan_of_parts(
        source,
        is_file,
        shortcut_of(parsed_url(shortcut_candidate(source))),
        parsed_url(source),
    )
}

/// Decides how `source` is read, from the repository shortcut found in it (if
/// any) and the URL parsed from it (if any).
pub fn plan_from_parts(
    source: &str,
    is_file: bool,
    shortcut: Option<RepositoryShortcut>,
    parsed: Option<UrlParts>,
) -> (r: SourcePlan)
    ensures
        r@ == plan_of_parts(source@, is_file, shortcut_view(shortcut), parts_view(parsed)),
{
    let s = chars_of(source);
    if is_word(s.as_slice(), "-") {
        return SourcePlan::Stdin;
    }
    if is_file {
        return SourcePlan::File;
    }
    if let Some(r) = shortcut {
        return SourcePlan::Repository(r);
    }
    match parsed {
        None => {
            let mut m = String::from_str("source not found: ");
            m.append(source);
            SourcePlan::Refused(m)
        },
        Some(u) => {
            let scheme = chars_of(u.scheme.as_str());
            if is_word(scheme.as_slice(), "http") || is_word(scheme.as_slice(), "https") {
                SourcePlan::Remote
            } else {
                let mut m = String::from_str(u.scheme.as_str());
                m.append(" is not a supported protocol");
                SourcePlan::Refused(m)
            }
        },
    }
}

/// Decides how `source` is read: standard input, a file, a repository's
/// README, an HTTP(S) URL, or nothing (with the reason).
pub fn plan_source(source: &str, is_file: bool) -> (r: SourcePlan)
    ensures
        r@ == source_plan_of(source@, is_file),
{
    let shortcut = RepositoryShortcut::parse(source);
    let parsed = parse_url(source);
    plan_from_parts(source, is_file, shortcut, parsed)
}

fn is_word(x: &[char], lit: &str) -> (r: bool)
    ensures
        r == (x@ == lit@),
{
    let l = chars_of(lit);
    same_chars(x, l.as_slice())
}

} // verus!
