//! The terminal document browser's state and decisions: the file tree with folding and
//! filtering, selection, focus, scrolling, key and mouse handling, and the preview. Drawing
//! and terminal input are the caller's part.

use vstd::prelude::*;
use crate::calls::{lowercased, to_lowercase};
use crate::discover::{parent_comps, DocumentIndex, ScanOptions};
use crate::document::Document;
use crate::order::{char_lists, comps_lt, lex_less, lex_lt, lemma_lex_asymmetric, lemma_lex_total, lemma_lex_transitive};
use crate::paths::{components, file_name, file_name_range};
use crate::render::Theme;
use crate::text::{chars_of, same_chars, string_of, trim, trim_bounds, CharSet};

verus! {

/// Settings of the terminal browser.
#[derive(Clone, Copy, Debug, PartialEq, Eq, Structural)]
pub struct TuiOptions {
    pub include_hidden: bool,
    pub respect_gitignore: bool,
    pub theme: Theme,
    pub line_numbers: bool,
    pub mouse: bool,
}

impl Default for TuiOptions {
    fn default() -> (o: TuiOptions)
        ensures
            o == (TuiOptions {
                include_hidden: false,
                respect_gitignore: true,
                theme: Theme::Dark,
                line_numbers: false,
                mouse: true,
            }),
    {
        TuiOptions { include_hidden: false, respect_gitignore: true, theme: Theme::Dark, line_numbers: false, mouse: true }
    }
}

/// The pane that keys act on.
#[derive(Clone, Copy, Debug, PartialEq, Eq, Structural)]
pub enum Focus {
    Tree,
    Preview,
}

impl Focus {
    /// The name shown for the pane.
    pub fn label(self) -> (r: &'static str)
        ensures
            r@ == match self {
                Focus::Tree => "files"@,
                Focus::Preview => "preview"@,
            },
    {
        match self {
            Focus::Tree => "files",
            Focus::Preview => "preview",
        }
    }

    /// The other pane.
    pub fn toggled(self) -> (r: Focus)
        ensures
            r != self,
    {
        match self {
            Focus::Tree => Focus::Preview,
            Focus::Preview => Focus::Tree,
        }
    }
}

/// A node of the file tree: a folder or a document, by relative path.
#[derive(Debug)]
pub enum NodeKey {
    Folder(String),
    Document(String),
}

pub enum KeyV {
    Folder(Seq<char>),
    Document(Seq<char>),
}

impl View for NodeKey {
    type V = KeyV;

    open spec fn view(&self) -> KeyV {
        match self {
            NodeKey::Folder(p) => KeyV::Folder(p@),
            NodeKey::Document(p) => KeyV::Document(p@),
        }
    }
}

impl NodeKey {
    pub fn copy(&self) -> (r: NodeKey)
        ensures
            r@ == self@,
    {
        match self {
            NodeKey::Folder(p) => NodeKey::Folder(p.clone()),
            NodeKey::Document(p) => NodeKey::Document(p.clone()),
        }
    }

    /// Whether two keys name the same node.
    pub fn same(&self, other: &NodeKey) -> (r: bool)
        ensures
            r == (self@ == other@),
    {
        match (self, other) {
            (NodeKey::Folder(a), NodeKey::Folder(b)) => {
                let x = chars_of(a.as_str());
                let y = chars_of(b.as_str());
                same_chars(x.as_slice(), y.as_slice())
            },
            (NodeKey::Document(a), NodeKey::Document(b)) => {
                let x = chars_of(a.as_str());
                let y = chars_of(b.as_str());
                same_chars(x.as_slice(), y.as_slice())
            },
            _ => false,
        }
    }
}

/// One row of the file tree.
#[derive(Debug)]
pub struct TreeRow {
    pub key: NodeKey,
    pub depth: usize,
    /// The document's position in the index, for document rows.
    pub document_index: Option<usize>,
    pub label: String,
}

pub struct RowV {
    pub key: KeyV,
    pub depth: nat,
    pub document_index: Option<usize>,
    pub label: Seq<char>,
}

impl View for TreeRow {
    type V = RowV;

    open spec fn view(&self) -> RowV {
        RowV { key: self.key@, depth: self.depth as nat, document_index: self.document_index, label: self.label@ }
    }
}

pub open spec fn rows_view(v: Seq<TreeRow>) -> Seq<RowV> {
    v.map_values(|r: TreeRow| r@)
}

// ---------------------------------------------------------------- matching

/// `q` occurs in `s`.
pub open spec fn contains_seq(s: Seq<char>, q: Seq<char>) -> bool {
    exists|i: int| 0 <= i <= s.len() - q.len() && #[trigger] s.subrange(i, i + q.len()) == q
}

pub fn contains_chars(s: &[char], q: &[char]) -> (r: bool)
    ensures
        r == contains_seq(s@, q@),
{
    if q.len() == 0 {
        assert(s@.subrange(0int, 0int + q@.len()) =~= q@);
        return true;
    }
    if q.len() > s.len() {
        return false;
    }
    let mut i: usize = 0;
    while i <= s.len() - q.len()
        invariant
            1 <= q@.len() <= s@.len(),
            i <= s@.len() - q@.len() + 1,
            forall|j: int| 0 <= j < i ==> #[trigger] s@.subrange(j, j + q@.len()) != q@,
        decreases s@.len() - q@.len() + 1 - i,
    {
        if crate::text::range_is(s, i, i + q.len(), q) {
            return true;
        }
        i = i + 1;
    }
    false
}

/// The filter text as it is matched: trimmed and lower-cased.
pub open spec fn query_of(filter: Seq<char>) -> Seq<char> {
    lowercased(trim(filter))
}

/// A path matches the query when the query is empty or occurs in the lower-cased path.
pub open spec fn path_matches(p: Seq<char>, q: Seq<char>) -> bool {
    q.len() == 0 || contains_seq(lowercased(p), q)
}

/// A document matches the query when the query is empty or occurs in its lower-cased
/// relative path or title.
pub open spec fn doc_matches(d: Document, q: Seq<char>) -> bool {
    q.len() == 0 || contains_seq(lowercased(d.relative_path@), q) || contains_seq(lowercased(d.title@), q)
}

fn lower_chars(s: &str) -> (r: Vec<char>)
    ensures
        r@ == lowercased(s@),
{
    let l = to_lowercase(s);
    chars_of(l.as_str())
}

fn path_matches_exec(p: &str, q: &Vec<char>) -> (r: bool)
    ensures
        r == path_matches(p@, q@),
{
    if q.len() == 0 {
        return true;
    }
    let l = lower_chars(p);
    contains_chars(l.as_slice(), q.as_slice())
}

pub fn document_matches(d: &Document, q: &Vec<char>) -> (r: bool)
    ensures
        r == doc_matches(*d, q@),
{
    if q.len() == 0 {
        return true;
    }
    let l = lower_chars(d.relative_path.as_str());
    if contains_chars(l.as_slice(), q.as_slice()) {
        return true;
    }
    let t = lower_chars(d.title.as_str());
    contains_chars(t.as_slice(), q.as_slice())
}

/// `Path::starts_with` for paths as components: `b` is a prefix of `a`.
pub open spec fn comps_prefix(a: Seq<Seq<char>>, b: Seq<Seq<char>>) -> bool {
    b.len() <= a.len() && a.take(b.len() as int) == b
}

fn comps_prefix_exec(a: &Vec<Vec<char>>, b: &Vec<Vec<char>>) -> (r: bool)
    ensures
        r == comps_prefix(char_lists(a@), char_lists(b@)),
{
    if b.len() > a.len() {
        return false;
    }
    let mut i: usize = 0;
    while i < b.len()
        invariant
            b@.len() <= a@.len(),
            i <= b@.len(),
            forall|j: int| 0 <= j < i ==> (#[trigger] a@[j])@ == b@[j]@,
        decreases b@.len() - i,
    {
        if !same_chars(a[i].as_slice(), b[i].as_slice()) {
            assert(char_lists(a@).take(b@.len() as int)[i as int] != char_lists(b@)[i as int]);
            return false;
        }
        i = i + 1;
    }
    assert(char_lists(a@).take(b@.len() as int) =~= char_lists(b@));
    true
}

/// Some document below `f` matches, or some folder below `f` (or `f` itself) matches.
pub open spec fn folder_has_match(docs: Seq<Document>, folders: Seq<String>, f: Seq<char>, q: Seq<char>) -> bool {
    (exists|i: int|
        0 <= i < docs.len() && comps_prefix(components(docs[i].relative_path@), components(f)) && #[trigger] doc_matches(
            docs[i],
            q,
        )) || (exists|j: int|
        0 <= j < folders.len() && comps_prefix(components(folders[j]@), components(f)) && #[trigger] path_matches(
            folders[j]@,
            q,
        ))
}

fn comps_of_str(s: &str) -> (r: Vec<Vec<char>>)
    ensures
        char_lists(r@) == components(s@),
{
    let c = chars_of(s);
    crate::discover::comps_of_chars(c.as_slice())
}

fn folder_has_match_exec(docs: &Vec<Document>, folders: &Vec<String>, f: &str, q: &Vec<char>) -> (r: bool)
    ensures
        r == folder_has_match(docs@, folders@, f@, q@),
{
    let fc = comps_of_str(f);
    let mut i: usize = 0;
    while i < docs.len()
        invariant
            i <= docs@.len(),
            char_lists(fc@) == components(f@),
            forall|j: int| 0 <= j < i ==> !(comps_prefix(components(docs@[j].relative_path@), components(f@)) && #[trigger] doc_matches(docs@[j], q@)),
        decreases docs@.len() - i,
    {
        let dc = comps_of_str(docs[i].relative_path.as_str());
        if comps_prefix_exec(&dc, &fc) && document_matches(&docs[i], q) {
            return true;
        }
        i = i + 1;
    }
    let mut j: usize = 0;
    while j < folders.len()
        invariant
            j <= folders@.len(),
            char_lists(fc@) == components(f@),
            forall|i: int| 0 <= i < docs@.len() ==> !(comps_prefix(components(docs@[i].relative_path@), components(f@)) && #[trigger] doc_matches(docs@[i], q@)),
            forall|k: int| 0 <= k < j ==> !(comps_prefix(components(folders@[k]@), components(f@)) && #[trigger] path_matches(folders@[k]@, q@)),
        decreases folders@.len() - j,
    {
        let gc = comps_of_str(folders[j].as_str());
        if comps_prefix_exec(&gc, &fc) && path_matches_exec(folders[j].as_str(), q) {
            return true;
        }
        j = j + 1;
    }
    false
}

// ---------------------------------------------------------------- ordering children

/// The number of leading entries of `t` whose key sorts before `k`.
pub open spec fn keyed_less(t: Seq<(Seq<char>, usize)>, k: Seq<char>) -> nat
    decreases t.len(),
{
    if t.len() > 0 && lex_lt(t[0].0, k) {
        1 + keyed_less(t.drop_first(), k)
    } else {
        0
    }
}

/// Entries sorted by key, stably.
pub open spec fn keyed_sort(s: Seq<(Seq<char>, usize)>) -> Seq<(Seq<char>, usize)>
    decreases s.len(),
{
    if s.len() == 0 {
        seq![]
    } else {
        let t = keyed_sort(s.drop_first());
        t.insert(keyed_less(t, s[0].0) as int, s[0])
    }
}

proof fn lemma_keyed_less_bound(t: Seq<(Seq<char>, usize)>, k: Seq<char>)
    ensures
        keyed_less(t, k) <= t.len(),
    decreases t.len(),
{
    if t.len() > 0 && lex_lt(t[0].0, k) {
        lemma_keyed_less_bound(t.drop_first(), k);
    }
}

/// Every entry of the sorted list satisfies what every entry of the list satisfies.
pub proof fn lemma_keyed_sort_keeps(s: Seq<(Seq<char>, usize)>, p: spec_fn((Seq<char>, usize)) -> bool)
    requires
        forall|i: int| 0 <= i < s.len() ==> p(#[trigger] s[i]),
    ensures
        keyed_sort(s).len() == s.len(),
        forall|i: int| 0 <= i < keyed_sort(s).len() ==> p(#[trigger] keyed_sort(s)[i]),
    decreases s.len(),
{
    if s.len() > 0 {
        let r = s.drop_first();
        assert forall|i: int| 0 <= i < r.len() implies p(#[trigger] r[i]) by {
            assert(r[i] == s[i + 1]);
        }
        lemma_keyed_sort_keeps(r, p);
        let t = keyed_sort(r);
        lemma_keyed_less_bound(t, s[0].0);
        let j = keyed_less(t, s[0].0) as int;
        assert forall|i: int| 0 <= i < keyed_sort(s).len() implies p(#[trigger] keyed_sort(s)[i]) by {
            if i < j {
                assert(keyed_sort(s)[i] == t[i]);
            } else if i == j {
                assert(keyed_sort(s)[i] == s[0]);
            } else {
                assert(keyed_sort(s)[i] == t[i - 1]);
            }
        }
    }
}

pub open spec fn key_lists(v: Seq<(Vec<char>, usize)>) -> Seq<(Seq<char>, usize)> {
    v.map_values(|p: (Vec<char>, usize)| (p.0@, p.1))
}

/// Sorts entries by key, stably (see `keyed_sort`).
fn sort_keyed(items: Vec<(Vec<char>, usize)>) -> (r: Vec<(Vec<char>, usize)>)
    ensures
        key_lists(r@) == keyed_sort(key_lists(items@)),
{
    let ghost all = key_lists(items@);
    let mut input = items;
    let mut out: Vec<(Vec<char>, usize)> = Vec::new();
    assert(all.skip(all.len() as int) =~= Seq::<(Seq<char>, usize)>::empty());
    while input.len() > 0
        invariant
            key_lists(input@) == all.take(input@.len() as int),
            input@.len() <= all.len(),
            key_lists(out@) == keyed_sort(all.skip(input@.len() as int)),
        decreases input@.len(),
    {
        let n = input.len();
        let ghost before_in = input@;
        let item = input.pop().unwrap();
        let ghost rest = all.skip(n - 1);
        assert(item == before_in[n - 1]);
        assert(all[n - 1] == key_lists(before_in)[n - 1]);
        assert(key_lists(input@) =~= all.take(n - 1));
        assert(rest[0] == (item.0@, item.1));
        assert(rest.drop_first() =~= all.skip(n as int));
        let mut j: usize = 0;
        let ghost ov = key_lists(out@);
        assert(ov.skip(0) =~= ov);
        while j < out.len() && lex_less(out[j].0.as_slice(), item.0.as_slice())
            invariant
                ov == key_lists(out@),
                j <= out@.len(),
                keyed_less(ov, item.0@) == j + keyed_less(ov.skip(j as int), item.0@),
            decreases out@.len() - j,
        {
            assert(ov.skip(j as int)[0] == ov[j as int]);
            assert(ov.skip(j as int).drop_first() =~= ov.skip(j + 1));
            j = j + 1;
        }
        proof {
            if j < out@.len() {
                assert(ov.skip(j as int)[0] == ov[j as int]);
            }
        }
        out.insert(j, item);
        assert(key_lists(out@) =~= ov.insert(j as int, rest[0]));
    }
    assert(all.skip(0) =~= all);
    out
}

// ---------------------------------------------------------------- the tree

/// A folder directly below the folder with components `parent`.
pub open spec fn is_child_folder(f: Seq<char>, parent: Seq<Seq<char>>) -> bool {
    components(f).len() == parent.len() + 1 && components(f).take(parent.len() as int) == parent
}

/// The most components any of the first `n` folders has.
pub open spec fn max_comps(folders: Seq<String>, n: int) -> nat
    decreases n,
{
    if n <= 0 {
        0
    } else {
        let m = max_comps(folders, n - 1);
        let c = components(folders[n - 1]@).len();
        if c > m {
            c
        } else {
            m
        }
    }
}

pub proof fn lemma_max_comps(folders: Seq<String>, n: int, i: int)
    requires
        0 <= i < n <= folders.len(),
    ensures
        components(folders[i]@).len() <= max_comps(folders, n),
    decreases n,
{
    if i < n - 1 {
        lemma_max_comps(folders, n - 1, i);
    }
}

/// The child folders of `parent` among the first `n` folders, keyed by their lower-cased
/// paths, in index order.
pub open spec fn folder_kids(folders: Seq<String>, parent: Seq<Seq<char>>, n: int) -> Seq<(Seq<char>, usize)>
    decreases n,
{
    if n <= 0 {
        seq![]
    } else {
        folder_kids(folders, parent, n - 1) + if is_child_folder(folders[n - 1]@, parent) {
            seq![(lowercased(folders[n - 1]@), (n - 1) as usize)]
        } else {
            seq![]
        }
    }
}

/// The documents directly in `parent` among the first `n`, keyed by their lower-cased
/// paths, in index order.
pub open spec fn doc_kids(docs: Seq<Document>, parent: Seq<Seq<char>>, n: int) -> Seq<(Seq<char>, usize)>
    decreases n,
{
    if n <= 0 {
        seq![]
    } else {
        doc_kids(docs, parent, n - 1) + if parent_comps(docs[n - 1].relative_path@) == parent {
            seq![(lowercased(docs[n - 1].relative_path@), (n - 1) as usize)]
        } else {
            seq![]
        }
    }
}

/// The label of a row: the file name of its path, or the path itself.
pub open spec fn row_label(p: Seq<char>) -> Seq<char> {
    match file_name(p) {
        Some(n) => n,
        None => p,
    }
}

/// The state the tree is built from.
pub struct TreeInput {
    pub docs: Seq<Document>,
    pub folders: Seq<String>,
    pub collapsed: Set<Seq<char>>,
    pub query: Seq<char>,
}

pub open spec fn tree_limit(t: TreeInput) -> nat {
    max_comps(t.folders, t.folders.len() as int)
}

/// The rows below the folder with components `parent`: its child folders (each followed by
/// its own rows unless it is folded), then its documents, each group in lower-cased path
/// order. With a query, a folder stays when it or an ancestor matches or something below
/// it matches; a document stays when an ancestor folder matches or it matches itself;
/// folding is ignored while filtering.
pub open spec fn subtree(t: TreeInput, parent: Seq<Seq<char>>, depth: nat, anc: bool) -> Seq<RowV>
    decreases tree_limit(t) - parent.len(), 1int, 0int,
{
    if parent.len() > tree_limit(t) {
        seq![]
    } else {
        folder_rows(t, keyed_sort(folder_kids(t.folders, parent, t.folders.len() as int)), 0, parent, depth, anc)
            + doc_rows(t, keyed_sort(doc_kids(t.docs, parent, t.docs.len() as int)), 0, depth, anc)
    }
}

pub open spec fn folder_rows(
    t: TreeInput,
    kids: Seq<(Seq<char>, usize)>,
    k: int,
    parent: Seq<Seq<char>>,
    depth: nat,
    anc: bool,
) -> Seq<RowV>
    decreases tree_limit(t) - parent.len(), 0int, kids.len() - k,
{
    if k < 0 || k >= kids.len() {
        seq![]
    } else {
        let idx = kids[k].1 as int;
        let rest = folder_rows(t, kids, k + 1, parent, depth, anc);
        if idx >= t.folders.len() || !is_child_folder(t.folders[idx]@, parent) {
            rest
        } else {
            let f = t.folders[idx]@;
            let own = path_matches(f, t.query);
            let inh = anc || own;
            if t.query.len() > 0 && !inh && !folder_has_match(t.docs, t.folders, f, t.query) {
                rest
            } else {
                let row = RowV { key: KeyV::Folder(f), depth, document_index: None, label: row_label(f) };
                let sub = if t.query.len() == 0 && t.collapsed.contains(f) {
                    seq![]
                } else {
                    proof {
                        lemma_max_comps(t.folders, t.folders.len() as int, idx);
                    }
                    subtree(t, components(f), depth + 1, inh)
                };
                seq![row] + sub + rest
            }
        }
    }
}

pub open spec fn doc_rows(t: TreeInput, kids: Seq<(Seq<char>, usize)>, k: int, depth: nat, anc: bool) -> Seq<RowV>
    decreases kids.len() - k,
{
    if k < 0 || k >= kids.len() {
        seq![]
    } else {
        let idx = kids[k].1 as int;
        let rest = doc_rows(t, kids, k + 1, depth, anc);
        if idx >= t.docs.len() {
            rest
        } else {
            let d = t.docs[idx];
            if t.query.len() > 0 && !anc && !doc_matches(d, t.query) {
                rest
            } else {
                seq![
                    RowV {
                        key: KeyV::Document(d.relative_path@),
                        depth,
                        document_index: Some(idx as usize),
                        label: row_label(d.relative_path@),
                    },
                ] + rest
            }
        }
    }
}

fn label_of(p: &str) -> (r: String)
    ensures
        r@ == row_label(p@),
{
    let c = chars_of(p);
    match file_name_range(c.as_slice()) {
        Some((a, b)) => string_of(c.as_slice(), a, b),
        None => String::from_str(p),
    }
}

/// The largest number of components of a folder.
fn limit_of(folders: &Vec<String>) -> (r: usize)
    ensures
        r == max_comps(folders@, folders@.len() as int),
{
    let mut m: usize = 0;
    let mut i: usize = 0;
    while i < folders.len()
        invariant
            i <= folders@.len(),
            m == max_comps(folders@, i as int),
        decreases folders@.len() - i,
    {
        let c = comps_of_str(folders[i].as_str());
        assert(c@.len() == components(folders@[i as int]@).len());
        if c.len() > m {
            m = c.len();
        }
        i = i + 1;
    }
    m
}

fn child_folders(folders: &Vec<String>, parent: &Vec<Vec<char>>) -> (r: Vec<(Vec<char>, usize)>)
    ensures
        key_lists(r@) == folder_kids(folders@, char_lists(parent@), folders@.len() as int),
{
    let ghost pv = char_lists(parent@);
    let mut r: Vec<(Vec<char>, usize)> = Vec::new();
    let mut i: usize = 0;
    while i < folders.len()
        invariant
            i <= folders@.len(),
            pv == char_lists(parent@),
            key_lists(r@) == folder_kids(folders@, pv, i as int),
        decreases folders@.len() - i,
    {
        let c = comps_of_str(folders[i].as_str());
        let ghost before = key_lists(r@);
        if c.len() > 0 && c.len() - 1 == parent.len() && comps_prefix_exec(&c, parent) {
            let key = lower_chars(folders[i].as_str());
            r.push((key, i));
            assert(key_lists(r@) =~= before + seq![(lowercased(folders@[i as int]@), i)]);
        } else {
            assert(key_lists(r@) =~= before + Seq::<(Seq<char>, usize)>::empty());
        }
        i = i + 1;
    }
    r
}

fn same_comp_lists(a: &Vec<Vec<char>>, b: &Vec<Vec<char>>) -> (r: bool)
    ensures
        r == (char_lists(a@) == char_lists(b@)),
{
    if a.len() != b.len() {
        assert(char_lists(a@).len() != char_lists(b@).len());
        return false;
    }
    assert(char_lists(a@).take(a@.len() as int) =~= char_lists(a@));
    comps_prefix_exec(a, b)
}

fn child_documents(docs: &Vec<Document>, parent: &Vec<Vec<char>>) -> (r: Vec<(Vec<char>, usize)>)
    ensures
        key_lists(r@) == doc_kids(docs@, char_lists(parent@), docs@.len() as int),
{
    let ghost pv = char_lists(parent@);
    let mut r: Vec<(Vec<char>, usize)> = Vec::new();
    let mut i: usize = 0;
    while i < docs.len()
        invariant
            i <= docs@.len(),
            pv == char_lists(parent@),
            key_lists(r@) == doc_kids(docs@, pv, i as int),
        decreases docs@.len() - i,
    {
        let mut c = comps_of_str(docs[i].relative_path.as_str());
        let ghost cv = char_lists(c@);
        if c.len() > 0 {
            c.pop();
            assert(char_lists(c@) =~= cv.drop_last());
        }
        let ghost before = key_lists(r@);
        if same_comp_lists(&c, parent) {
            let key = lower_chars(docs[i].relative_path.as_str());
            r.push((key, i));
            assert(key_lists(r@) =~= before + seq![(lowercased(docs@[i as int].relative_path@), i)]);
        } else {
            assert(key_lists(r@) =~= before + Seq::<(Seq<char>, usize)>::empty());
        }
        i = i + 1;
    }
    r
}

pub open spec fn strings_view(v: Seq<String>) -> Seq<Seq<char>> {
    v.map_values(|s: String| s@)
}

fn in_strings(v: &Vec<String>, s: &str) -> (r: bool)
    ensures
        r == strings_view(v@).contains(s@),
{
    let c = chars_of(s);
    let mut i: usize = 0;
    while i < v.len()
        invariant
            i <= v@.len(),
            c@ == s@,
            forall|j: int| 0 <= j < i ==> (#[trigger] v@[j])@ != s@,
        decreases v@.len() - i,
    {
        let x = chars_of(v[i].as_str());
        if same_chars(x.as_slice(), c.as_slice()) {
            assert(strings_view(v@)[i as int] == s@);
            return true;
        }
        i = i + 1;
    }
    proof {
        if strings_view(v@).contains(s@) {
            let j = choose|j: int| 0 <= j < strings_view(v@).len() && strings_view(v@)[j] == s@;
            assert(v@[j]@ == s@);
        }
    }
    false
}

proof fn lemma_folder_kids_ok(folders: Seq<String>, parent: Seq<Seq<char>>, n: int)
    requires
        0 <= n <= folders.len(),
        folders.len() <= usize::MAX,
    ensures
        forall|i: int|
            0 <= i < folder_kids(folders, parent, n).len() ==> (#[trigger] folder_kids(folders, parent, n)[i]).1 < n
                && is_child_folder(folders[folder_kids(folders, parent, n)[i].1 as int]@, parent),
    decreases n,
{
    if n > 0 {
        lemma_folder_kids_ok(folders, parent, n - 1);
        let a = folder_kids(folders, parent, n - 1);
        assert forall|i: int| 0 <= i < folder_kids(folders, parent, n).len() implies (#[trigger] folder_kids(folders, parent, n)[i]).1 < n
            && is_child_folder(folders[folder_kids(folders, parent, n)[i].1 as int]@, parent) by {
            if i < a.len() {
                assert(folder_kids(folders, parent, n)[i] == a[i]);
            } else {
                assert(folder_kids(folders, parent, n)[i] == (lowercased(folders[n - 1]@), (n - 1) as usize));
                assert(((n - 1) as usize) as int == n - 1);
            }
        }
    }
}

proof fn lemma_doc_kids_ok(docs: Seq<Document>, parent: Seq<Seq<char>>, n: int)
    requires
        0 <= n <= docs.len(),
    ensures
        forall|i: int| 0 <= i < doc_kids(docs, parent, n).len() ==> (#[trigger] doc_kids(docs, parent, n)[i]).1 < n,
    decreases n,
{
    if n > 0 {
        lemma_doc_kids_ok(docs, parent, n - 1);
        let a = doc_kids(docs, parent, n - 1);
        assert forall|i: int| 0 <= i < doc_kids(docs, parent, n).len() implies (#[trigger] doc_kids(docs, parent, n)[i]).1 < n by {
            if i < a.len() {
                assert(doc_kids(docs, parent, n)[i] == a[i]);
            }
        }
    }
}

/// A cached preview of the selected document.
pub struct PreviewCache {
    /// Which file, at which modification time and size, the source was read from.
    pub path: String,
    pub modified: crate::document::Timestamp,
    pub size: u64,
    /// The text after its frontmatter, when it could be read.
    pub source: Option<String>,
    /// Why it could not be read.
    pub error: Option<String>,
    /// The width and numbering the lines were drawn for (0 when not drawn yet).
    pub render_width: usize,
    pub line_numbers: bool,
    pub lines: Vec<crate::render::style::Line>,
}

/// The state of the terminal browser.
pub struct App {
    pub options: TuiOptions,
    pub scan_options: ScanOptions,
    pub index: DocumentIndex,
    /// Folded folders.
    pub collapsed: Vec<String>,
    pub rows: Vec<TreeRow>,
    pub selected: usize,
    pub focus: Focus,
    pub filter: String,
    pub filter_editing: bool,
    pub help: bool,
    pub preview_scroll: usize,
    pub preview_viewport_height: usize,
    pub tree_offset: usize,
    pub preview: Option<PreviewCache>,
    pub status: String,
}

impl App {
    pub open spec fn tree_input(&self, query: Seq<char>) -> TreeInput {
        TreeInput {
            docs: self.index.documents@,
            folders: self.index.folders@,
            collapsed: strings_view(self.collapsed@).to_set(),
            query,
        }
    }

    fn append_children(
        &self,
        parent: &Vec<Vec<char>>,
        depth: usize,
        anc: bool,
        query: &Vec<char>,
        limit: usize,
        rows: &mut Vec<TreeRow>,
    )
        requires
            limit == tree_limit(self.tree_input(query@)),
            depth == parent@.len(),
            parent@.len() <= limit,
        ensures
            rows_view(final(rows)@) == rows_view(old(rows)@) + subtree(
                self.tree_input(query@),
                char_lists(parent@),
                depth as nat,
                anc,
            ),
        decreases limit - parent@.len(),
    {
        let ghost t = self.tree_input(query@);
        let ghost pv = char_lists(parent@);
        let ghost rows0 = rows_view(rows@);
        let folders = &self.index.folders;
        let docs = &self.index.documents;
        let fk = child_folders(folders, parent);
        let fkids = sort_keyed(fk);
        let ghost kv = key_lists(fkids@);
        let nf = folders.len();
        proof {
            assert(folders@.len() == nf);
            lemma_folder_kids_ok(folders@, pv, folders@.len() as int);
            let fks = folder_kids(folders@, pv, folders@.len() as int);
            let p = |x: (Seq<char>, usize)| (x.1 as int) < folders@.len() && is_child_folder(folders@[x.1 as int]@, pv);
            assert forall|i: int| 0 <= i < fks.len() implies p(#[trigger] fks[i]) by {}
            lemma_keyed_sort_keeps(fks, p);
            assert forall|i: int| 0 <= i < kv.len() implies (#[trigger] kv[i]).1 < folders@.len() && is_child_folder(
                folders@[kv[i].1 as int]@,
                pv,
            ) by {
                assert(p(kv[i]));
            }
        }
        let mut k: usize = 0;
        while k < fkids.len()
            invariant
                t == self.tree_input(query@),
                pv == char_lists(parent@),
                kv == key_lists(fkids@),
                kv == keyed_sort(folder_kids(t.folders, pv, t.folders.len() as int)),
                forall|i: int| 0 <= i < kv.len() ==> (#[trigger] kv[i]).1 < t.folders.len() && is_child_folder(
                    t.folders[kv[i].1 as int]@,
                    pv,
                ),
                limit == tree_limit(t),
                depth == parent@.len(),
                parent@.len() <= limit,
                folders == &self.index.folders,
                docs == &self.index.documents,
                k <= fkids@.len(),
                rows_view(rows@) + folder_rows(t, kv, k as int, pv, depth as nat, anc) == rows0 + folder_rows(
                    t,
                    kv,
                    0,
                    pv,
                    depth as nat,
                    anc,
                ),
            decreases fkids@.len() - k,
        {
            let idx = fkids[k].1;
            let f = &folders[idx];
            let ghost fv = f@;
            assert(kv[k as int].1 == idx);
            let ghost rest = folder_rows(t, kv, k + 1, pv, depth as nat, anc);
            let own = path_matches_exec(f.as_str(), query);
            let inh = anc || own;
            if query.len() > 0 && !inh && !folder_has_match_exec(docs, folders, f.as_str(), query) {
                assert(folder_rows(t, kv, k as int, pv, depth as nat, anc) == rest);
                k = k + 1;
                continue;
            }
            let ghost before = rows_view(rows@);
            let label = label_of(f.as_str());
            rows.push(TreeRow { key: NodeKey::Folder(f.clone()), depth, document_index: None, label });
            let ghost row = RowV { key: KeyV::Folder(fv), depth: depth as nat, document_index: None, label: row_label(fv) };
            assert(rows_view(rows@) =~= before.push(row));
            let folded = query.len() == 0 && in_strings(&self.collapsed, f.as_str());
            if !folded {
                let child = comps_of_str(f.as_str());
                proof {
                    lemma_max_comps(t.folders, t.folders.len() as int, idx as int);
                    assert(child@.len() == components(fv).len());
                }
                let ghost mid = rows_view(rows@);
                self.append_children(&child, depth + 1, inh, query, limit, rows);
                proof {
                    assert(char_lists(child@) == components(fv));
                    let sub = subtree(t, components(fv), (depth + 1) as nat, inh);
                    assert(folder_rows(t, kv, k as int, pv, depth as nat, anc) == seq![row] + sub + rest);
                    assert(rows_view(rows@) == before.push(row) + sub);
                    assert(before.push(row) + sub + rest =~= before + (seq![row] + sub + rest));
                }
            } else {
                proof {
                    assert(folder_rows(t, kv, k as int, pv, depth as nat, anc) == seq![row] + Seq::<RowV>::empty() + rest);
                    assert(before.push(row) + rest =~= before + (seq![row] + Seq::<RowV>::empty() + rest));
                }
            }
            k = k + 1;
        }
        let ghost after_folders = rows_view(rows@);
        proof {
            assert(folder_rows(t, kv, fkids@.len() as int, pv, depth as nat, anc) == Seq::<RowV>::empty());
            assert(after_folders + Seq::<RowV>::empty() =~= after_folders);
        }
        let dk = child_documents(docs, parent);
        let dkids = sort_keyed(dk);
        let ghost dv = key_lists(dkids@);
        proof {
            lemma_doc_kids_ok(docs@, pv, docs@.len() as int);
            let dks = doc_kids(docs@, pv, docs@.len() as int);
            let p = |x: (Seq<char>, usize)| (x.1 as int) < docs@.len();
            assert forall|i: int| 0 <= i < dks.len() implies p(#[trigger] dks[i]) by {}
            lemma_keyed_sort_keeps(dks, p);
            assert forall|i: int| 0 <= i < dv.len() implies (#[trigger] dv[i]).1 < docs@.len() by {
                assert(p(dv[i]));
            }
        }
        let mut k: usize = 0;
        while k < dkids.len()
            invariant
                t == self.tree_input(query@),
                dv == key_lists(dkids@),
                forall|i: int| 0 <= i < dv.len() ==> (#[trigger] dv[i]).1 < t.docs.len(),
                docs == &self.index.documents,
                k <= dkids@.len(),
                rows_view(rows@) + doc_rows(t, dv, k as int, depth as nat, anc) == after_folders + doc_rows(
                    t,
                    dv,
                    0,
                    depth as nat,
                    anc,
                ),
            decreases dkids@.len() - k,
        {
            let idx = dkids[k].1;
            assert(dv[k as int].1 == idx);
            let d = &docs[idx];
            let ghost rest = doc_rows(t, dv, k + 1, depth as nat, anc);
            if query.len() > 0 && !anc && !document_matches(d, query) {
                assert(doc_rows(t, dv, k as int, depth as nat, anc) == rest);
                k = k + 1;
                continue;
            }
            let ghost before = rows_view(rows@);
            let label = label_of(d.relative_path.as_str());
            rows.push(TreeRow {
                key: NodeKey::Document(d.relative_path.clone()),
                depth,
                document_index: Some(idx),
                label,
            });
            let ghost row = RowV {
                key: KeyV::Document(d.relative_path@),
                depth: depth as nat,
                document_index: Some(idx),
                label: row_label(d.relative_path@),
            };
            assert(rows_view(rows@) =~= before.push(row));
            assert(doc_rows(t, dv, k as int, depth as nat, anc) == seq![row] + rest);
            assert(before.push(row) + rest =~= before + (seq![row] + rest));
            k = k + 1;
        }
        proof {
            assert(doc_rows(t, dv, dkids@.len() as int, depth as nat, anc) == Seq::<RowV>::empty());
            assert(rows_view(rows@) + Seq::<RowV>::empty() =~= rows_view(rows@));
            assert(subtree(t, pv, depth as nat, anc) == folder_rows(t, kv, 0, pv, depth as nat, anc) + doc_rows(
                t,
                dv,
                0,
                depth as nat,
                anc,
            ));
            assert(rows0 + (folder_rows(t, kv, 0, pv, depth as nat, anc) + doc_rows(t, dv, 0, depth as nat, anc))
                =~= rows0 + folder_rows(t, kv, 0, pv, depth as nat, anc) + doc_rows(t, dv, 0, depth as nat, anc));
        }
    }
}

// ---------------------------------------------------------------- selection

/// The first row with key `k`.
pub open spec fn position_from(rows: Seq<RowV>, k: KeyV, i: int) -> Option<int>
    decreases rows.len() - i,
{
    if i < 0 || i >= rows.len() {
        None
    } else if rows[i].key == k {
        Some(i)
    } else {
        position_from(rows, k, i + 1)
    }
}

pub open spec fn min_usize(a: int, b: int) -> int {
    if a < b {
        a
    } else {
        b
    }
}

/// The row selected after the rows are rebuilt: the row of the remembered key, else the
/// old position clamped to the rows.
pub open spec fn reselected(rows: Seq<RowV>, key: Option<KeyV>, selected: int) -> int {
    match key {
        Some(k) => match position_from(rows, k, 0) {
            Some(i) => i,
            None => min_usize(selected, rows.len() - 1),
        },
        None => min_usize(selected, rows.len() - 1),
    }
}

/// The key of the selected row, if a row is selected.
pub open spec fn selected_key_of(rows: Seq<RowV>, selected: int) -> Option<KeyV> {
    if 0 <= selected < rows.len() {
        Some(rows[selected].key)
    } else {
        None
    }
}

/// `usize::saturating_add_signed`.
pub open spec fn add_signed(a: usize, d: isize) -> int {
    let v = a + d;
    if v < 0 {
        0
    } else if v > usize::MAX {
        usize::MAX as int
    } else {
        v
    }
}

fn add_signed_exec(a: usize, d: isize) -> (r: usize)
    ensures
        r == add_signed(a, d),
{
    if d >= 0 {
        let u = d as usize;
        if a > usize::MAX - u {
            usize::MAX
        } else {
            a + u
        }
    } else {
        let u = ((-(d + 1)) as usize) + 1;
        if a < u {
            0
        } else {
            a - u
        }
    }
}

impl App {
    /// Everything but the rows, the selection, the tree's scroll offset and the preview's
    /// scroll position is as in `other`.
    pub open spec fn keeps_settings(&self, other: &App) -> bool {
        &&& self.keeps_base(other)
        &&& self.collapsed == other.collapsed
        &&& self.filter == other.filter
    }

    /// As `keeps_settings`, but the folding and the filter may differ.
    pub open spec fn keeps_base(&self, other: &App) -> bool {
        &&& self.keeps_core(other)
        &&& self.status == other.status
    }

    /// As `keeps_base`, but the status line may differ.
    pub open spec fn keeps_core(&self, other: &App) -> bool {
        &&& self.options == other.options
        &&& self.scan_options == other.scan_options
        &&& self.index == other.index
        &&& self.focus == other.focus
        &&& self.filter_editing == other.filter_editing
        &&& self.help == other.help
        &&& self.preview_viewport_height == other.preview_viewport_height
        &&& self.preview == other.preview
    }

    /// The rows, selection, tree offset and preview scroll are as in `other` as well.
    pub open spec fn keeps_all(&self, other: &App) -> bool {
        &&& self.keeps_settings(other)
        &&& self.rows == other.rows
        &&& self.selected == other.selected
        &&& self.tree_offset == other.tree_offset
        &&& self.preview_scroll == other.preview_scroll
    }

    pub open spec fn rows_v(&self) -> Seq<RowV> {
        rows_view(self.rows@)
    }

    /// The tree as the current filter and folding make it.
    pub open spec fn tree_rows(&self) -> Seq<RowV> {
        subtree(self.tree_input(query_of(self.filter@)), seq![], 0, false)
    }

    /// The rows as rebuilding `before` makes them (its index, folding and filter as this
    /// state has them), with the row of `preferred`, or else of the key `before` had
    /// selected, kept selected where it is still shown.
    pub open spec fn rebuilt_from(&self, before: &App, preferred: Option<KeyV>) -> bool {
        let rows = self.rows_v();
        let key = match preferred {
            Some(k) => Some(k),
            None => selected_key_of(before.rows_v(), before.selected as int),
        };
        &&& rows == self.tree_rows()
        &&& rows.len() == 0 ==> self.selected == 0 && self.tree_offset == 0 && self.preview_scroll == 0
        &&& rows.len() > 0 ==> self.selected == reselected(rows, key, before.selected as int)
            && self.preview_scroll == 0 && self.tree_offset == before.tree_offset
    }

    /// The key of the selected row.
    pub fn selected_key(&self) -> (r: Option<&NodeKey>)
        ensures
            match selected_key_of(self.rows_v(), self.selected as int) {
                Some(k) => r matches Some(x) && x@ == k,
                None => r is None,
            },
    {
        if self.selected < self.rows.len() {
            Some(&self.rows[self.selected].key)
        } else {
            None
        }
    }

    /// Rebuilds the rows from the index, the folding and the filter; keeps the row of
    /// `preferred` (or else of the selected key) selected where it is still shown.
    pub fn rebuild_rows(&mut self, preferred: Option<NodeKey>)
        ensures
            final(self).keeps_settings(old(self)),
            final(self).rebuilt_from(
                old(self),
                match preferred {
                    Some(k) => Some(k@),
                    None => None,
                },
            ),
    {
        let old_key: Option<NodeKey> = match preferred {
            Some(k) => Some(k),
            None => match self.selected_key() {
                Some(k) => Some(k.copy()),
                None => None,
            },
        };
        let fc = chars_of(self.filter.as_str());
        let (a, b) = trim_bounds(fc.as_slice(), 0, fc.len(), CharSet::Whitespace);
        assert(fc@.subrange(0, fc@.len() as int) =~= fc@);
        let trimmed = string_of(fc.as_slice(), a, b);
        let query = lower_chars(trimmed.as_str());
        let limit = limit_of(&self.index.folders);
        let mut rows: Vec<TreeRow> = Vec::new();
        let root: Vec<Vec<char>> = Vec::new();
        assert(char_lists(root@) =~= Seq::<Seq<char>>::empty());
        assert(rows_view(rows@) =~= Seq::<RowV>::empty());
        self.append_children(&root, 0, false, &query, limit, &mut rows);
        assert(rows_view(rows@) =~= self.tree_rows());
        self.rows = rows;
        if self.rows.len() == 0 {
            self.selected = 0;
            self.tree_offset = 0;
            self.preview_scroll = 0;
            return;
        }
        let n = self.rows.len();
        let fallback = if self.selected < n - 1 {
            self.selected
        } else {
            n - 1
        };
        let mut chosen = fallback;
        match &old_key {
            Some(k) => {
                let mut i: usize = 0;
                let mut found = false;
                let ghost rv = self.rows_v();
                while i < n && !found
                    invariant
                        n == self.rows@.len(),
                        rv == self.rows_v(),
                        i <= n,
                        found ==> i < n && position_from(rv, k@, 0) == Some(i as int),
                        !found ==> position_from(rv, k@, 0) == position_from(rv, k@, i as int),
                    decreases n - i + (if found { 0int } else { 1int }),
                {
                    if self.rows[i].key.same(k) {
                        found = true;
                    } else {
                        i = i + 1;
                    }
                }
                if found {
                    chosen = i;
                } else {
                    assert(position_from(rv, k@, n as int) is None);
                }
            },
            None => {},
        }
        self.selected = chosen;
        self.preview_scroll = 0;
    }
}

pub open spec fn lines_len(p: Option<PreviewCache>) -> int {
    match p {
        Some(c) => c.lines@.len() as int,
        None => 0,
    }
}

/// The parent folder of a path as text: everything before its last `/`, or nothing.
pub open spec fn parent_text(p: Seq<char>) -> Seq<char> {
    let r = crate::paths::rfind(p, '/', p.len() as int);
    if r >= 0 {
        p.take(r)
    } else {
        seq![]
    }
}

impl App {
    /// How far the preview can scroll: its lines less the visible height.
    pub open spec fn max_scroll(&self) -> int {
        let n = lines_len(self.preview);
        if n > self.preview_viewport_height {
            n - self.preview_viewport_height
        } else {
            0
        }
    }

    pub fn max_preview_scroll(&self) -> (r: usize)
        ensures
            r == self.max_scroll(),
    {
        let n = match &self.preview {
            Some(c) => c.lines.len(),
            None => 0,
        };
        if n > self.preview_viewport_height {
            n - self.preview_viewport_height
        } else {
            0
        }
    }

    /// Moves the selection by `delta` rows, within the rows.
    pub fn move_selection(&mut self, delta: isize)
        ensures
            moved_effect(old(self), final(self), delta),
    {
        if self.rows.len() == 0 {
            return;
        }
        let moved = add_signed_exec(self.selected, delta);
        let last = self.rows.len() - 1;
        self.selected = if moved < last { moved } else { last };
        self.preview_scroll = 0;
    }

    pub fn select_first(&mut self)
        ensures
            first_effect(old(self), final(self)),
    {
        if self.rows.len() > 0 {
            self.selected = 0;
            self.preview_scroll = 0;
        }
    }

    pub fn select_last(&mut self)
        ensures
            last_effect(old(self), final(self)),
    {
        if self.rows.len() > 0 {
            self.selected = self.rows.len() - 1;
            self.preview_scroll = 0;
        }
    }

    /// Scrolls the preview by `delta` lines, within its lines.
    pub fn scroll_preview(&mut self, delta: isize)
        ensures
            scrolled_effect(old(self), final(self), delta),
    {
        let moved = add_signed_exec(self.preview_scroll, delta);
        let max = self.max_preview_scroll();
        self.preview_scroll = if moved < max { moved } else { max };
    }

    pub fn preview_top(&mut self)
        ensures
            top_effect(old(self), final(self)),
    {
        self.preview_scroll = 0;
    }

    pub fn preview_bottom(&mut self)
        ensures
            bottom_effect(old(self), final(self)),
    {
        self.preview_scroll = self.max_preview_scroll();
    }

    /// Lines scrolled by a page: the visible height less one, at least one.
    pub open spec fn page(&self) -> int {
        let v = self.preview_viewport_height;
        let p = if v > 1 { v - 1 } else { 1 };
        if p > isize::MAX { isize::MAX as int } else { p }
    }

    pub fn page_size(&self) -> (r: isize)
        ensures
            r == self.page(),
    {
        let v = self.preview_viewport_height;
        let p = if v > 1 { v - 1 } else { 1 };
        if p > isize::MAX as usize {
            isize::MAX
        } else {
            p as isize
        }
    }

    /// The document of the selected row, if it is a document row.
    pub open spec fn selected_doc_index(&self) -> Option<int> {
        if self.selected < self.rows@.len() {
            match self.rows@[self.selected as int].document_index {
                Some(i) => if i < self.index.documents@.len() {
                    Some(i as int)
                } else {
                    None
                },
                None => None,
            }
        } else {
            None
        }
    }

    pub fn selected_document(&self) -> (r: Option<&Document>)
        ensures
            match self.selected_doc_index() {
                Some(i) => r == Some(&self.index.documents@[i]),
                None => r is None,
            },
    {
        if self.selected < self.rows.len() {
            match self.rows[self.selected].document_index {
                Some(i) => if i < self.index.documents.len() {
                    Some(&self.index.documents[i])
                } else {
                    None
                },
                None => None,
            }
        } else {
            None
        }
    }

    /// The number of document rows.
    pub open spec fn doc_rows_in(rows: Seq<RowV>) -> nat
        decreases rows.len(),
    {
        if rows.len() == 0 {
            0
        } else {
            Self::doc_rows_in(rows.drop_last()) + if rows.last().document_index is Some { 1nat } else { 0nat }
        }
    }

    pub fn visible_document_count(&self) -> (r: usize)
        ensures
            r == Self::doc_rows_in(self.rows_v()),
    {
        let mut n: usize = 0;
        let mut i: usize = 0;
        let ghost rv = self.rows_v();
        while i < self.rows.len()
            invariant
                rv == self.rows_v(),
                i <= self.rows@.len(),
                n == Self::doc_rows_in(rv.take(i as int)),
                n <= i,
            decreases self.rows@.len() - i,
        {
            assert(rv.take(i + 1).drop_last() =~= rv.take(i as int));
            if self.rows[i].document_index.is_some() {
                n = n + 1;
            }
            i = i + 1;
        }
        assert(rv.take(rv.len() as int) =~= rv);
        n
    }
}

/// `after` is `before` with `f` added (when `add`) or removed.
pub open spec fn set_changed(before: Seq<Seq<char>>, after: Seq<Seq<char>>, f: Seq<char>, add: bool) -> bool {
    forall|x: Seq<char>| #[trigger] after.contains(x) == if x == f { add } else { before.contains(x) }
}

fn without_string(v: &Vec<String>, f: &str) -> (r: Vec<String>)
    ensures
        set_changed(strings_view(v@), strings_view(r@), f@, false),
{
    let fc = chars_of(f);
    let mut r: Vec<String> = Vec::new();
    let mut i: usize = 0;
    assert(strings_view(v@.take(0)) =~= Seq::<Seq<char>>::empty());
    assert(strings_view(r@) =~= Seq::<Seq<char>>::empty());
    while i < v.len()
        invariant
            i <= v@.len(),
            fc@ == f@,
            forall|x: Seq<char>| #[trigger] strings_view(r@).contains(x) == (x != f@ && strings_view(v@.take(i as int)).contains(x)),
        decreases v@.len() - i,
    {
        let c = chars_of(v[i].as_str());
        let ghost before = strings_view(r@);
        assert(strings_view(v@.take(i + 1)) =~= strings_view(v@.take(i as int)).push(v@[i as int]@));
        let ghost vi = v@[i as int]@;
        let ghost prefix = strings_view(v@.take(i as int));
        if !same_chars(c.as_slice(), fc.as_slice()) {
            r.push(v[i].clone());
            assert(strings_view(r@) =~= before.push(vi));
            assert forall|x: Seq<char>| #[trigger] strings_view(r@).contains(x) == (x != f@ && prefix.push(vi).contains(x)) by {
                vstd::seq_lib::lemma_seq_contains_after_push(before, vi, x);
                vstd::seq_lib::lemma_seq_contains_after_push(prefix, vi, x);
            }
        } else {
            assert forall|x: Seq<char>| #[trigger] strings_view(r@).contains(x) == (x != f@ && prefix.push(vi).contains(x)) by {
                vstd::seq_lib::lemma_seq_contains_after_push(prefix, vi, x);
            }
        }
        i = i + 1;
    }
    assert(v@.take(v@.len() as int) =~= v@);
    r
}

impl App {
    /// Folds or unfolds the selected folder and rebuilds the rows keeping it selected;
    /// false when the selection is not a folder.
    pub fn toggle_selected_folder(&mut self) -> (r: bool)
        ensures
            toggle_effect(old(self), final(self), r),
    {
        let folder = match self.selected_key() {
            Some(NodeKey::Folder(f)) => f.clone(),
            _ => return false,
        };
        if in_strings(&self.collapsed, folder.as_str()) {
            self.collapsed = without_string(&self.collapsed, folder.as_str());
        } else {
            let ghost before = strings_view(self.collapsed@);
            self.collapsed.push(folder.clone());
            assert(strings_view(self.collapsed@) =~= before.push(folder@));
            assert forall|x: Seq<char>| #[trigger] strings_view(self.collapsed@).contains(x) == if x == folder@ { true } else { before.contains(x) } by {
                vstd::seq_lib::lemma_seq_contains_after_push(before, folder@, x);
            }
        }
        self.rebuild_rows(Some(NodeKey::Folder(folder)));
        true
    }

    /// Unfolds the selected folder (rebuilding the rows when it was folded); false when the
    /// selection is not a folder.
    pub fn expand_selected_folder(&mut self) -> (r: bool)
        ensures
            expand_effect(old(self), final(self), r),
    {
        let folder = match self.selected_key() {
            Some(NodeKey::Folder(f)) => f.clone(),
            _ => return false,
        };
        if in_strings(&self.collapsed, folder.as_str()) {
            self.collapsed = without_string(&self.collapsed, folder.as_str());
            self.rebuild_rows(Some(NodeKey::Folder(folder)));
        }
        true
    }

    /// Folds the selected folder when it is unfolded; otherwise selects the row of the
    /// parent folder, where there is one.
    pub fn collapse_or_select_parent(&mut self)
        ensures
            collapse_effect(old(self), final(self)),
    {
        let key = match self.selected_key() {
            Some(k) => k.copy(),
            None => return,
        };
        match &key {
            NodeKey::Folder(f) => {
                if !in_strings(&self.collapsed, f.as_str()) {
                    let ghost before = strings_view(self.collapsed@);
                    self.collapsed.push(f.clone());
                    assert(strings_view(self.collapsed@) =~= before.push(f@));
                    assert forall|x: Seq<char>| #[trigger] strings_view(self.collapsed@).contains(x) == if x == f@ { true } else { before.contains(x) } by {
                        vstd::seq_lib::lemma_seq_contains_after_push(before, f@, x);
                    }
                    self.rebuild_rows(Some(key));
                    return;
                }
            },
            NodeKey::Document(_) => {},
        }
        let path = match &key {
            NodeKey::Folder(p) => p,
            NodeKey::Document(p) => p,
        };
        let c = chars_of(path.as_str());
        let parent = match crate::paths::rfind_char(c.as_slice(), '/', 0, c.len()) {
            Some(r) => {
                assert(c@.subrange(0, c@.len() as int) =~= c@);
                string_of(c.as_slice(), 0, r)
            },
            None => {
                assert(c@.subrange(0, c@.len() as int) =~= c@);
                String::new()
            },
        };
        assert(parent@ =~= parent_text(path@));
        let pc = chars_of(parent.as_str());
        if pc.len() == 0 {
            return;
        }
        let parent_key = NodeKey::Folder(parent);
        let n = self.rows.len();
        let ghost rv = self.rows_v();
        let mut i: usize = 0;
        let mut found = false;
        while i < n && !found
            invariant
                n == self.rows@.len(),
                rv == self.rows_v(),
                i <= n,
                found ==> i < n && position_from(rv, parent_key@, 0) == Some(i as int),
                !found ==> position_from(rv, parent_key@, 0) == position_from(rv, parent_key@, i as int),
            decreases n - i + (if found { 0int } else { 1int }),
        {
            if self.rows[i].key.same(&parent_key) {
                found = true;
            } else {
                i = i + 1;
            }
        }
        if found {
            self.selected = i;
            self.preview_scroll = 0;
        } else {
            assert(position_from(rv, parent_key@, n as int) is None);
        }
    }
}

// ---------------------------------------------------------------- what the operations do

/// Only the selection and the preview scroll may change: `a` selects row `selected`
/// with the preview scrolled to the top.
pub open spec fn selects(b: &App, a: &App, selected: int) -> bool {
    a.keeps_settings(b) && a.rows == b.rows && a.tree_offset == b.tree_offset && a.selected == selected
        && a.preview_scroll == 0
}

/// Only the preview scroll may change, to `scroll`.
pub open spec fn scrolls(b: &App, a: &App, scroll: int) -> bool {
    a.keeps_settings(b) && a.rows == b.rows && a.selected == b.selected && a.tree_offset == b.tree_offset
        && a.preview_scroll == scroll
}

/// The selection moves by `delta` rows, within the rows.
pub open spec fn moved_effect(b: &App, a: &App, delta: isize) -> bool {
    if b.rows@.len() == 0 {
        a.keeps_all(b)
    } else {
        selects(b, a, min_usize(add_signed(b.selected, delta), b.rows@.len() - 1))
    }
}

pub open spec fn first_effect(b: &App, a: &App) -> bool {
    if b.rows@.len() == 0 {
        a.keeps_all(b)
    } else {
        selects(b, a, 0)
    }
}

pub open spec fn last_effect(b: &App, a: &App) -> bool {
    if b.rows@.len() == 0 {
        a.keeps_all(b)
    } else {
        selects(b, a, b.rows@.len() - 1)
    }
}

/// The preview scrolls by `delta` lines, within its lines.
pub open spec fn scrolled_effect(b: &App, a: &App, delta: isize) -> bool {
    scrolls(b, a, min_usize(add_signed(b.preview_scroll, delta), b.max_scroll()))
}

pub open spec fn top_effect(b: &App, a: &App) -> bool {
    scrolls(b, a, 0)
}

pub open spec fn bottom_effect(b: &App, a: &App) -> bool {
    scrolls(b, a, b.max_scroll())
}

/// The folder `f` is folded (`fold`) or unfolded, and the rows are rebuilt keeping it
/// selected.
pub open spec fn refolded(b: &App, a: &App, f: Seq<char>, fold: bool) -> bool {
    &&& a.keeps_base(b)
    &&& a.filter == b.filter
    &&& set_changed(strings_view(b.collapsed@), strings_view(a.collapsed@), f, fold)
    &&& a.rebuilt_from(b, Some(KeyV::Folder(f)))
}

/// A selected folder changes its folding; `r` tells whether a folder was selected.
pub open spec fn toggle_effect(b: &App, a: &App, r: bool) -> bool {
    match selected_key_of(b.rows_v(), b.selected as int) {
        Some(KeyV::Folder(f)) => r && refolded(b, a, f, !strings_view(b.collapsed@).contains(f)),
        _ => !r && a.keeps_all(b),
    }
}

/// A selected folded folder unfolds; `r` tells whether a folder was selected.
pub open spec fn expand_effect(b: &App, a: &App, r: bool) -> bool {
    match selected_key_of(b.rows_v(), b.selected as int) {
        Some(KeyV::Folder(f)) => r && if strings_view(b.collapsed@).contains(f) {
            refolded(b, a, f, false)
        } else {
            a.keeps_all(b)
        },
        _ => !r && a.keeps_all(b),
    }
}

/// A selected unfolded folder folds; otherwise the row of the parent folder, where there
/// is one, is selected.
pub open spec fn collapse_effect(b: &App, a: &App) -> bool {
    match selected_key_of(b.rows_v(), b.selected as int) {
        None => a.keeps_all(b),
        Some(k) => {
            let folds = match k {
                KeyV::Folder(f) => !strings_view(b.collapsed@).contains(f),
                KeyV::Document(_) => false,
            };
            if folds {
                refolded(b, a, k->Folder_0, true)
            } else {
                let p = match k {
                    KeyV::Folder(f) => f,
                    KeyV::Document(d) => d,
                };
                let parent = parent_text(p);
                if parent.len() == 0 {
                    a.keeps_all(b)
                } else {
                    match position_from(b.rows_v(), KeyV::Folder(parent), 0) {
                        Some(i) => selects(b, a, i),
                        None => a.keeps_all(b),
                    }
                }
            }
        },
    }
}

// ---------------------------------------------------------------- keys

/// A key, as the terminal reports it.
#[derive(Clone, Copy, Debug, PartialEq, Eq, Structural)]
pub enum KeyCode {
    Char(char),
    Esc,
    Enter,
    Backspace,
    Tab,
    BackTab,
    Up,
    Down,
    PageUp,
    PageDown,
    Home,
    End,
    Left,
    Right,
    Other,
}

/// A key press with its modifiers.
#[derive(Clone, Copy, Debug, PartialEq, Eq, Structural)]
pub struct KeyPress {
    pub code: KeyCode,
    pub control: bool,
    pub alt: bool,
}

/// What the input loop does after an event.
#[derive(Clone, Copy, Debug, PartialEq, Eq, Structural)]
pub enum LoopControl {
    Continue,
    Quit,
    /// Scan the root again, then hand the new index to `rescanned`.
    Rescan,
}

/// What a key asks for.
#[derive(Clone, Copy, Debug, PartialEq, Eq, Structural)]
pub enum KeyCommand {
    Quit,
    Ignore,
    StopEditing,
    EraseFilterChar,
    TypeFilterChar(char),
    CloseHelp,
    ClearFilter,
    OpenHelp,
    StartEditing,
    SwitchPane,
    Open,
    Down,
    Up,
    PageDown,
    PageUp,
    First,
    Last,
    Expand,
    Collapse,
    Rescan,
}

/// The meaning of a key: Ctrl-C always quits; while the filter is edited, keys edit it;
/// while help is shown, Esc, `?` and `q` close it; otherwise the browser's bindings.
pub open spec fn key_command(editing: bool, help: bool, filter_empty: bool, k: KeyPress) -> KeyCommand {
    if k.control && k.code == KeyCode::Char('c') {
        KeyCommand::Quit
    } else if editing {
        match k.code {
            KeyCode::Esc => KeyCommand::StopEditing,
            KeyCode::Enter => KeyCommand::StopEditing,
            KeyCode::Backspace => KeyCommand::EraseFilterChar,
            KeyCode::Char(c) => if !k.control && !k.alt {
                KeyCommand::TypeFilterChar(c)
            } else {
                KeyCommand::Ignore
            },
            _ => KeyCommand::Ignore,
        }
    } else if help {
        match k.code {
            KeyCode::Esc => KeyCommand::CloseHelp,
            KeyCode::Char(c) => if c == '?' || c == 'q' {
                KeyCommand::CloseHelp
            } else {
                KeyCommand::Ignore
            },
            _ => KeyCommand::Ignore,
        }
    } else {
        match k.code {
            KeyCode::Char(c) => if c == 'q' {
                KeyCommand::Quit
            } else if c == '?' {
                KeyCommand::OpenHelp
            } else if c == '/' {
                KeyCommand::StartEditing
            } else if c == 'j' {
                KeyCommand::Down
            } else if c == 'k' {
                KeyCommand::Up
            } else if c == 'g' {
                KeyCommand::First
            } else if c == 'G' {
                KeyCommand::Last
            } else if c == 'r' {
                KeyCommand::Rescan
            } else {
                KeyCommand::Ignore
            },
            KeyCode::Esc => if filter_empty {
                KeyCommand::Quit
            } else {
                KeyCommand::ClearFilter
            },
            KeyCode::Tab => KeyCommand::SwitchPane,
            KeyCode::BackTab => KeyCommand::SwitchPane,
            KeyCode::Enter => KeyCommand::Open,
            KeyCode::Down => KeyCommand::Down,
            KeyCode::Up => KeyCommand::Up,
            KeyCode::PageDown => KeyCommand::PageDown,
            KeyCode::PageUp => KeyCommand::PageUp,
            KeyCode::Home => KeyCommand::First,
            KeyCode::End => KeyCommand::Last,
            KeyCode::Right => KeyCommand::Expand,
            KeyCode::Left => KeyCommand::Collapse,
            _ => KeyCommand::Ignore,
        }
    }
}

pub fn command_for(app: &App, k: KeyPress) -> (r: KeyCommand)
    ensures
        r == key_command(app.filter_editing, app.help, app.filter@.len() == 0, k),
{
    if k.control && k.code == KeyCode::Char('c') {
        return KeyCommand::Quit;
    }
    if app.filter_editing {
        return match k.code {
            KeyCode::Esc => KeyCommand::StopEditing,
            KeyCode::Enter => KeyCommand::StopEditing,
            KeyCode::Backspace => KeyCommand::EraseFilterChar,
            KeyCode::Char(c) => if !k.control && !k.alt {
                KeyCommand::TypeFilterChar(c)
            } else {
                KeyCommand::Ignore
            },
            _ => KeyCommand::Ignore,
        };
    }
    if app.help {
        return match k.code {
            KeyCode::Esc => KeyCommand::CloseHelp,
            KeyCode::Char(c) => if c == '?' || c == 'q' {
                KeyCommand::CloseHelp
            } else {
                KeyCommand::Ignore
            },
            _ => KeyCommand::Ignore,
        };
    }
    let empty = chars_of(app.filter.as_str()).len() == 0;
    match k.code {
        KeyCode::Char(c) => if c == 'q' {
            KeyCommand::Quit
        } else if c == '?' {
            KeyCommand::OpenHelp
        } else if c == '/' {
            KeyCommand::StartEditing
        } else if c == 'j' {
            KeyCommand::Down
        } else if c == 'k' {
            KeyCommand::Up
        } else if c == 'g' {
            KeyCommand::First
        } else if c == 'G' {
            KeyCommand::Last
        } else if c == 'r' {
            KeyCommand::Rescan
        } else {
            KeyCommand::Ignore
        },
        KeyCode::Esc => if empty {
            KeyCommand::Quit
        } else {
            KeyCommand::ClearFilter
        },
        KeyCode::Tab => KeyCommand::SwitchPane,
        KeyCode::BackTab => KeyCommand::SwitchPane,
        KeyCode::Enter => KeyCommand::Open,
        KeyCode::Down => KeyCommand::Down,
        KeyCode::Up => KeyCommand::Up,
        KeyCode::PageDown => KeyCommand::PageDown,
        KeyCode::PageUp => KeyCommand::PageUp,
        KeyCode::Home => KeyCommand::First,
        KeyCode::End => KeyCommand::Last,
        KeyCode::Right => KeyCommand::Expand,
        KeyCode::Left => KeyCommand::Collapse,
        _ => KeyCommand::Ignore,
    }
}

/// Only the flags and the focus may change, to these values.
pub open spec fn flags_set(b: &App, a: &App, editing: bool, help: bool, focus: Focus) -> bool {
    &&& a.options == b.options
    &&& a.scan_options == b.scan_options
    &&& a.index == b.index
    &&& a.collapsed == b.collapsed
    &&& a.filter == b.filter
    &&& a.status == b.status
    &&& a.preview_viewport_height == b.preview_viewport_height
    &&& a.preview == b.preview
    &&& a.rows == b.rows
    &&& a.selected == b.selected
    &&& a.tree_offset == b.tree_offset
    &&& a.preview_scroll == b.preview_scroll
    &&& a.filter_editing == editing
    &&& a.help == help
    &&& a.focus == focus
}

/// The filter becomes `filter` and the rows are rebuilt for it.
pub open spec fn refiltered(b: &App, a: &App, filter: Seq<char>) -> bool {
    &&& a.keeps_core(b)
    &&& a.collapsed == b.collapsed
    &&& a.filter@ == filter
    &&& a.rebuilt_from(b, None)
}

/// The preview takes the focus, scrolled to the top when `top` and left where it was
/// otherwise; nothing else changes.
pub open spec fn to_preview(b: &App, a: &App, top: bool) -> bool {
    &&& a.options == b.options
    &&& a.scan_options == b.scan_options
    &&& a.index == b.index
    &&& a.collapsed == b.collapsed
    &&& a.filter == b.filter
    &&& a.status == b.status
    &&& a.preview_viewport_height == b.preview_viewport_height
    &&& a.preview == b.preview
    &&& a.rows == b.rows
    &&& a.selected == b.selected
    &&& a.tree_offset == b.tree_offset
    &&& a.filter_editing == b.filter_editing
    &&& a.help == b.help
    &&& a.focus == Focus::Preview
    &&& a.preview_scroll == if top { 0 } else { b.preview_scroll }
}

/// What a command does to the browser.
pub open spec fn key_effect(b: &App, a: &App, cmd: KeyCommand) -> bool {
    match cmd {
        KeyCommand::Quit => a.keeps_all(b),
        KeyCommand::Ignore => a.keeps_all(b),
        KeyCommand::Rescan => a.keeps_all(b),
        KeyCommand::StopEditing => flags_set(b, a, false, b.help, b.focus),
        KeyCommand::CloseHelp => flags_set(b, a, b.filter_editing, false, b.focus),
        KeyCommand::OpenHelp => flags_set(b, a, b.filter_editing, true, b.focus),
        KeyCommand::StartEditing => flags_set(b, a, true, b.help, b.focus),
        KeyCommand::SwitchPane => flags_set(
            b,
            a,
            b.filter_editing,
            b.help,
            match b.focus {
                Focus::Tree => Focus::Preview,
                Focus::Preview => Focus::Tree,
            },
        ),
        KeyCommand::EraseFilterChar => refiltered(
            b,
            a,
            if b.filter@.len() > 0 {
                b.filter@.drop_last()
            } else {
                b.filter@
            },
        ) && a.status == b.status,
        KeyCommand::TypeFilterChar(c) => refiltered(b, a, b.filter@.push(c)) && a.status == b.status,
        KeyCommand::ClearFilter => refiltered(b, a, seq![]) && a.status@ == "filter cleared"@,
        KeyCommand::Open => match selected_key_of(b.rows_v(), b.selected as int) {
            Some(KeyV::Folder(_)) => toggle_effect(b, a, true),
            _ => if b.selected_doc_index() is Some {
                to_preview(b, a, true)
            } else {
                a.keeps_all(b)
            },
        },
        KeyCommand::Expand => match selected_key_of(b.rows_v(), b.selected as int) {
            Some(KeyV::Folder(_)) => expand_effect(b, a, true),
            _ => if b.selected_doc_index() is Some {
                to_preview(b, a, false)
            } else {
                a.keeps_all(b)
            },
        },
        KeyCommand::Collapse => collapse_effect(b, a),
        KeyCommand::Down => match b.focus {
            Focus::Tree => moved_effect(b, a, 1),
            Focus::Preview => scrolled_effect(b, a, 1),
        },
        KeyCommand::Up => match b.focus {
            Focus::Tree => moved_effect(b, a, -1isize),
            Focus::Preview => scrolled_effect(b, a, -1isize),
        },
        KeyCommand::PageDown => scrolled_effect(b, a, b.page() as isize),
        KeyCommand::PageUp => scrolled_effect(b, a, -b.page() as isize),
        KeyCommand::First => match b.focus {
            Focus::Tree => first_effect(b, a),
            Focus::Preview => top_effect(b, a),
        },
        KeyCommand::Last => match b.focus {
            Focus::Tree => last_effect(b, a),
            Focus::Preview => bottom_effect(b, a),
        },
    }
}

pub open spec fn control_of(cmd: KeyCommand) -> LoopControl {
    match cmd {
        KeyCommand::Quit => LoopControl::Quit,
        KeyCommand::Rescan => LoopControl::Rescan,
        _ => LoopControl::Continue,
    }
}

impl App {
    fn set_filter(&mut self, filter: String)
        ensures
            final(self).filter == filter,
            final(self).keeps_core(old(self)),
            final(self).status == old(self).status,
            final(self).collapsed == old(self).collapsed,
            final(self).rows == old(self).rows,
            final(self).selected == old(self).selected,
            final(self).tree_offset == old(self).tree_offset,
            final(self).preview_scroll == old(self).preview_scroll,
    {
        self.filter = filter;
    }

    fn erase_filter_char(&mut self)
        ensures
            key_effect(old(self), final(self), KeyCommand::EraseFilterChar),
    {
        let c = chars_of(self.filter.as_str());
        let n = c.len();
        let shorter = if n > 0 { string_of(c.as_slice(), 0, n - 1) } else { string_of(c.as_slice(), 0, 0) };
        proof {
            if n > 0 {
                assert(c@.subrange(0, n - 1) =~= c@.drop_last());
            } else {
                assert(c@.subrange(0, 0) =~= c@);
            }
        }
        self.set_filter(shorter);
        self.rebuild_rows(None);
    }

    fn type_filter_char(&mut self, ch: char)
        ensures
            key_effect(old(self), final(self), KeyCommand::TypeFilterChar(ch)),
    {
        let mut longer = self.filter.clone();
        crate::calls::push_char(&mut longer, ch);
        self.set_filter(longer);
        self.rebuild_rows(None);
    }

    fn clear_filter(&mut self)
        ensures
            key_effect(old(self), final(self), KeyCommand::ClearFilter),
    {
        self.set_filter(String::new());
        self.rebuild_rows(None);
        self.status = String::from_str("filter cleared");
    }

    fn open_selected(&mut self)
        ensures
            key_effect(old(self), final(self), KeyCommand::Open),
    {
        if !self.toggle_selected_folder() && self.selected_document().is_some() {
            self.focus = Focus::Preview;
            self.preview_scroll = 0;
        }
    }

    fn expand_selected(&mut self)
        ensures
            key_effect(old(self), final(self), KeyCommand::Expand),
    {
        if !self.expand_selected_folder() && self.selected_document().is_some() {
            self.focus = Focus::Preview;
        }
    }

    fn step_down(&mut self, delta: isize)
        ensures
            match old(self).focus {
                Focus::Tree => moved_effect(old(self), final(self), delta),
                Focus::Preview => scrolled_effect(old(self), final(self), delta),
            },
    {
        match self.focus {
            Focus::Tree => self.move_selection(delta),
            Focus::Preview => self.scroll_preview(delta),
        }
    }

    fn go_first(&mut self)
        ensures
            key_effect(old(self), final(self), KeyCommand::First),
    {
        match self.focus {
            Focus::Tree => self.select_first(),
            Focus::Preview => self.preview_top(),
        }
    }

    fn go_last(&mut self)
        ensures
            key_effect(old(self), final(self), KeyCommand::Last),
    {
        match self.focus {
            Focus::Tree => self.select_last(),
            Focus::Preview => self.preview_bottom(),
        }
    }

    fn flag_command(&mut self, cmd: KeyCommand)
        requires
            cmd is StopEditing || cmd is CloseHelp || cmd is OpenHelp || cmd is StartEditing || cmd is SwitchPane,
        ensures
            key_effect(old(self), final(self), cmd),
    {
        match cmd {
            KeyCommand::StopEditing => self.filter_editing = false,
            KeyCommand::CloseHelp => self.help = false,
            KeyCommand::OpenHelp => self.help = true,
            KeyCommand::StartEditing => self.filter_editing = true,
            _ => self.focus = self.focus.toggled(),
        }
    }

    /// Carries out a command (see `key_effect`).
    #[verifier::rlimit(40)]
    pub fn run_command(&mut self, cmd: KeyCommand) -> (r: LoopControl)
        ensures
            r == control_of(cmd),
            key_effect(old(self), final(self), cmd),
    {
        match cmd {
            KeyCommand::Quit => LoopControl::Quit,
            KeyCommand::Ignore => LoopControl::Continue,
            KeyCommand::Rescan => LoopControl::Rescan,
            KeyCommand::EraseFilterChar => {
                self.erase_filter_char();
                LoopControl::Continue
            },
            KeyCommand::TypeFilterChar(ch) => {
                self.type_filter_char(ch);
                LoopControl::Continue
            },
            KeyCommand::ClearFilter => {
                self.clear_filter();
                LoopControl::Continue
            },
            KeyCommand::Open => {
                self.open_selected();
                LoopControl::Continue
            },
            KeyCommand::Expand => {
                self.expand_selected();
                LoopControl::Continue
            },
            KeyCommand::Collapse => {
                self.collapse_or_select_parent();
                LoopControl::Continue
            },
            KeyCommand::Down => {
                self.step_down(1);
                LoopControl::Continue
            },
            KeyCommand::Up => {
                self.step_down(-1);
                LoopControl::Continue
            },
            KeyCommand::PageDown => {
                let p = self.page_size();
                self.scroll_preview(p);
                LoopControl::Continue
            },
            KeyCommand::PageUp => {
                let p = self.page_size();
                self.scroll_preview(-p);
                LoopControl::Continue
            },
            KeyCommand::First => {
                self.go_first();
                LoopControl::Continue
            },
            KeyCommand::Last => {
                self.go_last();
                LoopControl::Continue
            },
            _ => {
                self.flag_command(cmd);
                LoopControl::Continue
            },
        }
    }

    /// Handles a key press: works out what it asks for (`key_command`) and does it
    /// (`key_effect`).
    pub fn handle_key(&mut self, key: KeyPress) -> (r: LoopControl)
        ensures
            r == control_of(key_command(old(self).filter_editing, old(self).help, old(self).filter@.len() == 0, key)),
            key_effect(old(self), final(self), key_command(old(self).filter_editing, old(self).help, old(self).filter@.len() == 0, key)),
    {
        let cmd = command_for(self, key);
        self.run_command(cmd)
    }
}

// ---------------------------------------------------------------- mouse

/// What a mouse event was.
#[derive(Clone, Copy, Debug, PartialEq, Eq, Structural)]
pub enum MouseKind {
    ScrollDown,
    ScrollUp,
    LeftDown,
    Other,
}

#[derive(Clone, Copy, Debug, PartialEq, Eq, Structural)]
pub struct MouseEvent {
    pub kind: MouseKind,
    pub column: u16,
    pub row: u16,
}

/// A rectangle of terminal cells.
#[derive(Clone, Copy, Debug, PartialEq, Eq, Structural)]
pub struct Rect {
    pub x: u16,
    pub y: u16,
    pub width: u16,
    pub height: u16,
}

/// Where the panes were last drawn.
#[derive(Clone, Copy, Debug, PartialEq, Eq, Structural)]
pub struct UiRegions {
    pub tree: Option<Rect>,
    pub preview: Option<Rect>,
}

pub open spec fn sat_add16(a: u16, b: u16) -> int {
    if a + b > u16::MAX { u16::MAX as int } else { a + b }
}

/// The cell is inside the rectangle.
pub open spec fn inside(r: Option<Rect>, column: u16, row: u16) -> bool {
    match r {
        Some(r) => column >= r.x && column < sat_add16(r.x, r.width) && row >= r.y && row < sat_add16(r.y, r.height),
        None => false,
    }
}

fn sat_add16_exec(a: u16, b: u16) -> (r: u16)
    ensures
        r == sat_add16(a, b),
{
    if a > u16::MAX - b { u16::MAX } else { a + b }
}

fn inside_exec(r: Option<Rect>, column: u16, row: u16) -> (b: bool)
    ensures
        b == inside(r, column, row),
{
    match r {
        Some(r) => column >= r.x && column < sat_add16_exec(r.x, r.width) && row >= r.y && row < sat_add16_exec(r.y, r.height),
        None => false,
    }
}

/// The tree row under a click at `row`, between the tree's borders: counted from the
/// first shown row.
pub open spec fn clicked_row(tree: Rect, row: u16, offset: usize, rows: int) -> Option<int> {
    let top = sat_add16(tree.y, 1);
    let bottom = sat_add16(tree.y, if tree.height > 0 { (tree.height - 1) as u16 } else { 0u16 });
    if row >= top && row < bottom && offset + (row - top) < rows {
        Some(offset + (row - top))
    } else {
        None
    }
}

/// Everything but the focus, the selection and the preview scroll is unchanged.
pub open spec fn same_but_view(b: &App, a: &App) -> bool {
    &&& a.keeps_core_except_focus(b)
    &&& a.status == b.status
    &&& a.collapsed == b.collapsed
    &&& a.filter == b.filter
    &&& a.rows == b.rows
    &&& a.tree_offset == b.tree_offset
}

/// What a mouse event does: the wheel scrolls the pane under the pointer and focuses it; a
/// click focuses the pane under it, and in the tree selects the clicked row.
pub open spec fn mouse_effect(b: &App, a: &App, m: MouseEvent, regions: UiRegions) -> bool {
    let in_tree = inside(regions.tree, m.column, m.row);
    let in_preview = inside(regions.preview, m.column, m.row);
    let wheel: isize = if m.kind == MouseKind::ScrollDown { 3isize } else { -3isize };
    if (m.kind == MouseKind::ScrollDown || m.kind == MouseKind::ScrollUp) && in_preview {
        same_but_view(b, a) && a.focus == Focus::Preview && a.selected == b.selected && a.preview_scroll == min_usize(
            add_signed(b.preview_scroll, wheel),
            b.max_scroll(),
        )
    } else if (m.kind == MouseKind::ScrollDown || m.kind == MouseKind::ScrollUp) && in_tree {
        same_but_view(b, a) && a.focus == Focus::Tree && if b.rows@.len() == 0 {
            a.selected == b.selected && a.preview_scroll == b.preview_scroll
        } else {
            a.selected == min_usize(add_signed(b.selected, wheel), b.rows@.len() - 1) && a.preview_scroll == 0
        }
    } else if m.kind == MouseKind::LeftDown && in_preview {
        same_but_view(b, a) && a.focus == Focus::Preview && a.selected == b.selected && a.preview_scroll
            == b.preview_scroll
    } else if m.kind == MouseKind::LeftDown && in_tree {
        same_but_view(b, a) && a.focus == Focus::Tree && match clicked_row(
            regions.tree->0,
            m.row,
            b.tree_offset,
            b.rows@.len() as int,
        ) {
            Some(r) => a.selected == r && a.preview_scroll == 0,
            None => a.selected == b.selected && a.preview_scroll == b.preview_scroll,
        }
    } else {
        a.keeps_all(b)
    }
}

impl App {
    /// As `keeps_core`, but the focus may differ.
    pub open spec fn keeps_core_except_focus(&self, other: &App) -> bool {
        &&& self.options == other.options
        &&& self.scan_options == other.scan_options
        &&& self.index == other.index
        &&& self.filter_editing == other.filter_editing
        &&& self.help == other.help
        &&& self.preview_viewport_height == other.preview_viewport_height
        &&& self.preview == other.preview
    }

    /// Handles a mouse event (see `mouse_effect`).
    pub fn handle_mouse(&mut self, mouse: MouseEvent, regions: UiRegions)
        ensures
            mouse_effect(old(self), final(self), mouse, regions),
    {
        let in_tree = inside_exec(regions.tree, mouse.column, mouse.row);
        let in_preview = inside_exec(regions.preview, mouse.column, mouse.row);
        let wheel = mouse.kind == MouseKind::ScrollDown || mouse.kind == MouseKind::ScrollUp;
        let delta: isize = if mouse.kind == MouseKind::ScrollDown { 3 } else { -3 };
        if wheel && in_preview {
            self.scroll_preview(delta);
            self.focus = Focus::Preview;
            assert(mouse_effect(old(self), self, mouse, regions));
        } else if wheel && in_tree {
            self.move_selection(delta);
            self.focus = Focus::Tree;
            assert(mouse_effect(old(self), self, mouse, regions));
        } else if mouse.kind == MouseKind::LeftDown && in_preview {
            self.focus = Focus::Preview;
            assert(mouse_effect(old(self), self, mouse, regions));
        } else if mouse.kind == MouseKind::LeftDown && in_tree {
            self.focus = Focus::Tree;
            match regions.tree {
                Some(tree) => {
                    let top = sat_add16_exec(tree.y, 1);
                    let bottom = sat_add16_exec(tree.y, if tree.height > 0 { tree.height - 1 } else { 0 });
                    let n = self.rows.len();
                    assert(n == old(self).rows@.len());
                    if mouse.row >= top && mouse.row < bottom {
                        let d = (mouse.row - top) as usize;
                        if self.tree_offset <= usize::MAX - d {
                            let r = self.tree_offset + d;
                            if r < self.rows.len() {
                                self.selected = r;
                                self.preview_scroll = 0;
                            }
                        }
                    }
                },
                None => {},
            }
        }
    }
}

// ---------------------------------------------------------------- construction and rescans

/// `discovered <n> Markdown files`.
pub open spec fn discovered_status(n: nat) -> Seq<char> {
    "discovered "@ + crate::text::dec(n) + " Markdown files"@
}

/// After a rescan: `refreshed: <n> Markdown files` when asked for by a key, `updated: <n>
/// Markdown files` when a change was noticed.
pub open spec fn rescan_status(manual: bool, n: nat) -> Seq<char> {
    (if manual { "refreshed: "@ } else { "updated: "@ }) + crate::text::dec(n) + " Markdown files"@
}

fn count_status(prefix: &str, n: usize) -> (r: String)
    ensures
        r@ == prefix@ + crate::text::dec(n as nat) + " Markdown files"@,
{
    let mut s = String::from_str(prefix);
    crate::text::push_decimal(&mut s, n as u64);
    s.append(" Markdown files");
    s
}

impl App {
    /// The browser over `index`: every folder unfolded, no filter, the tree focused, and
    /// the preferred document (see `DocumentIndex::preferred_document`) selected.
    pub fn new(index: DocumentIndex, options: TuiOptions) -> (a: App)
        ensures
            a.options == options,
            a.scan_options == (ScanOptions { include_hidden: options.include_hidden, respect_gitignore: options.respect_gitignore }),
            a.index == index,
            a.collapsed@.len() == 0,
            a.filter@.len() == 0,
            a.focus == Focus::Tree,
            !a.filter_editing,
            !a.help,
            a.preview is None,
            a.preview_viewport_height == 0,
            a.status@ == discovered_status(index.documents@.len()),
            a.rows_v() == a.tree_rows(),
            a.rows_v().len() == 0 ==> a.selected == 0,
            a.rows_v().len() > 0 ==> a.selected == reselected(
                a.rows_v(),
                match crate::discover::preferred_position(index.documents@) {
                    Some(i) => Some(KeyV::Document(index.documents@[i].relative_path@)),
                    None => None,
                },
                0,
            ),
            a.tree_offset == 0,
            a.preview_scroll == 0,
    {
        let preferred = match index.preferred_document() {
            Some(d) => Some(NodeKey::Document(d.relative_path.clone())),
            None => None,
        };
        let count = index.documents.len();
        let status = count_status("discovered ", count);
        let mut app = App {
            options,
            scan_options: ScanOptions { include_hidden: options.include_hidden, respect_gitignore: options.respect_gitignore },
            index,
            collapsed: Vec::new(),
            rows: Vec::new(),
            selected: 0,
            focus: Focus::Tree,
            filter: String::new(),
            filter_editing: false,
            help: false,
            preview_scroll: 0,
            preview_viewport_height: 0,
            tree_offset: 0,
            preview: None,
            status,
        };
        app.rebuild_rows(preferred);
        app
    }

    /// Takes a fresh scan of the root: the rows are rebuilt keeping the selected row's key
    /// selected where it is still shown, and the status tells the new count.
    pub fn rescanned(&mut self, index: DocumentIndex, manual: bool)
        ensures
            final(self).index == index,
            final(self).options == old(self).options,
            final(self).scan_options == old(self).scan_options,
            final(self).focus == old(self).focus,
            final(self).filter_editing == old(self).filter_editing,
            final(self).help == old(self).help,
            final(self).preview_viewport_height == old(self).preview_viewport_height,
            final(self).preview == old(self).preview,
            final(self).collapsed == old(self).collapsed,
            final(self).filter == old(self).filter,
            final(self).rebuilt_from(old(self), None),
            final(self).status@ == rescan_status(manual, index.documents@.len()),
    {
        let selected = match self.selected_key() {
            Some(k) => Some(k.copy()),
            None => None,
        };
        self.index = index;
        self.rebuild_rows(selected);
        let count = self.index.documents.len();
        self.status = if manual { count_status("refreshed: ", count) } else { count_status("updated: ", count) };
    }
}

// ---------------------------------------------------------------- preview

pub open spec fn tinted(c: crate::render::style::Color) -> crate::render::style::Style {
    crate::render::style::Style { fg: Some(c), ..crate::render::style::plain_style() }
}

/// Lines with a right-aligned line number column in front.
pub open spec fn numbered_lines(lines: Seq<crate::render::style::LineV>) -> Seq<crate::render::style::LineV> {
    let digits = crate::text::dec(if lines.len() == 0 { 1 } else { lines.len() }).len();
    Seq::new(
        lines.len(),
        |i: int|
            seq![(crate::text::padded_dec((i + 1) as nat, digits) + " │ "@, tinted(crate::render::style::Color::DarkGray))]
                + lines[i],
    )
}

/// The lines the preview shows: the read error in red, or the document rendered at the
/// width (less a number column when lines are numbered, at least 8), numbered when asked.
pub open spec fn preview_lines(
    options: TuiOptions,
    source: Option<Seq<char>>,
    error: Option<Seq<char>>,
    width: usize,
) -> Seq<crate::render::style::LineV> {
    match error {
        Some(e) => seq![seq![(e, tinted(crate::render::style::Color::Red))]],
        None => {
            let cw: usize = if options.line_numbers {
                if width >= 15 { (width - 7) as usize } else { 8 }
            } else {
                width
            };
            let l = crate::render::builder::rendered_markdown(
                crate::render::terminal::TerminalRenderOptions {
                    width: cw,
                    theme: options.theme,
                    line_numbers: false,
                    preserve_newlines: false,
                },
                match source {
                    Some(s) => s,
                    None => seq![],
                },
            );
            if options.line_numbers {
                numbered_lines(l)
            } else {
                l
            }
        },
    }
}

/// Adds a line number column to each line (see `numbered_lines`).
pub fn add_line_numbers(lines: Vec<crate::render::style::Line>) -> (r: Vec<crate::render::style::Line>)
    ensures
        crate::render::style::lines_view(r@) == numbered_lines(crate::render::style::lines_view(lines@)),
{
    let n = lines.len();
    let digits = crate::text::decimal_len(if n == 0 { 1 } else { n as u64 });
    let ghost lv = crate::render::style::lines_view(lines@);
    let mut input = lines;
    let mut out: Vec<crate::render::style::Line> = Vec::new();
    let mut rev: Vec<crate::render::style::Line> = Vec::new();
    while input.len() > 0
        invariant
            input@.len() + rev@.len() == n,
            n == lv.len(),
            forall|j: int| 0 <= j < input@.len() ==> input@[j]@ == lv[j],
            forall|j: int| 0 <= j < rev@.len() ==> (#[trigger] rev@[j])@ == lv[n - 1 - j],
        decreases input@.len(),
    {
        let l = input.pop().unwrap();
        rev.push(l);
    }
    let mut i: usize = 0;
    while rev.len() > 0
        invariant
            rev@.len() + i == n,
            n == lv.len(),
            digits == crate::text::dec(if n == 0 { 1 } else { n as nat }).len(),
            forall|j: int| 0 <= j < rev@.len() ==> (#[trigger] rev@[j])@ == lv[n - 1 - j],
            out@.len() == i,
            forall|j: int| 0 <= j < i ==> (#[trigger] crate::render::style::lines_view(out@)[j]) == numbered_lines(lv)[j],
        decreases rev@.len(),
    {
        let l = rev.pop().unwrap();
        let ghost old_l = l@;
        assert(old_l == lv[i as int]);
        let mut label = String::new();
        crate::text::push_padded_decimal(&mut label, (i + 1) as u64, digits);
        label.append(" │ ");
        let mut spans: Vec<crate::render::style::Span> = Vec::new();
        spans.push(crate::render::style::span(
            label,
            crate::render::style::Style {
                fg: Some(crate::render::style::Color::DarkGray),
                bg: None,
                bold: false,
                italic: false,
                underlined: false,
                crossed_out: false,
            },
        ));
        let ghost head = crate::render::style::spans_view(spans@);
        let mut rest = l.spans;
        spans.append(&mut rest);
        let line = crate::render::style::Line { spans };
        assert(line@ =~= head + old_l);
        assert(line@ == numbered_lines(lv)[i as int]);
        let ghost before = crate::render::style::lines_view(out@);
        out.push(line);
        assert(crate::render::style::lines_view(out@) =~= before.push(numbered_lines(lv)[i as int]));
        i = i + 1;
    }
    assert(crate::render::style::lines_view(out@) =~= numbered_lines(lv));
    out
}

/// Every field but the preview and its scroll is as it was.
pub open spec fn same_but_preview(b: &App, a: &App) -> bool {
    &&& a.options == b.options
    &&& a.index == b.index
    &&& a.rows == b.rows
    &&& a.selected == b.selected
    &&& a.focus == b.focus
    &&& a.filter == b.filter
    &&& a.collapsed == b.collapsed
    &&& a.preview_viewport_height == b.preview_viewport_height
    &&& a.scan_options == b.scan_options
    &&& a.filter_editing == b.filter_editing
    &&& a.help == b.help
    &&& a.tree_offset == b.tree_offset
    &&& a.status == b.status
}

/// What `load_preview` does: the selected document's text (after its frontmatter), or why
/// it could not be read, is cached undrawn, and the preview scrolls to the top.
pub open spec fn load_effect(b: &App, a: &App, read: Result<String, String>) -> bool {
    let d = b.index.documents@[b.selected_doc_index()->0];
    &&& a.preview matches Some(c) && (c.path@ == d.absolute_path@ && c.modified == d.modified && c.size
        == d.size && c.render_width == 0 && c.line_numbers == b.options.line_numbers && c.lines@.len() == 0
        && match read {
        Ok(text) => c.error is None && (c.source matches Some(s) && s@ == crate::document::stripped_frontmatter(
            text@,
        )),
        Err(e) => c.source is None && (c.error matches Some(m) && m@ == "Cannot read "@ + d.absolute_path@
            + ": "@ + e@),
    })
    &&& a.preview_scroll == 0
    &&& same_but_preview(b, a)
}

/// What `refresh_preview` does: the cached preview is drawn for `width` columns (at least
/// 8) unless it is already drawn for that width and numbering, and the scroll is kept
/// within its lines.
pub open spec fn refresh_effect(b: &App, a: &App, width: usize) -> bool {
    let c = b.preview->0;
    let w: usize = if width < 8 { 8 } else { width };
    &&& if c.render_width == w && c.line_numbers == b.options.line_numbers && c.lines@.len() > 0 {
        a.preview == b.preview && a.preview_scroll == b.preview_scroll
    } else {
        a.preview matches Some(n) && (n.path == c.path && n.modified == c.modified && n.size == c.size
            && n.source == c.source && n.error == c.error && n.render_width == w && n.line_numbers
            == b.options.line_numbers && crate::render::style::lines_view(n.lines@) == preview_lines(
            b.options,
            crate::tunnel::text_of(c.source),
            crate::tunnel::text_of(c.error),
            w,
        ) && a.preview_scroll == min_usize(b.preview_scroll as int, a.max_scroll()))
    }
    &&& same_but_preview(b, a)
}

/// Loading the selected document's preview and drawing it leaves a preview that is the
/// selected document's (so `preview_request` answers `Ready`); drawing it again for the
/// same width changes neither the drawn lines nor the scroll.
pub proof fn lemma_preview_settles(
    a0: App,
    a1: App,
    a2: App,
    a3: App,
    read: Result<String, String>,
    width: usize,
)
    requires
        a0.selected_doc_index() is Some,
        load_effect(&a0, &a1, read),
        refresh_effect(&a1, &a2, width),
        refresh_effect(&a2, &a3, width),
    ensures
        a2.preview_current(),
        a3.preview_current(),
        a2.preview matches Some(c2) && (a3.preview matches Some(c3) && c3.path == c2.path && c3.modified
            == c2.modified && c3.size == c2.size && c3.source == c2.source && c3.error == c2.error
            && c3.render_width == c2.render_width && c3.line_numbers == c2.line_numbers
            && crate::render::style::lines_view(c3.lines@) == crate::render::style::lines_view(c2.lines@)),
        a3.preview_scroll == a2.preview_scroll,
{
    let c2 = a2.preview->0;
    let w: usize = if width < 8 { 8 } else { width };
    if c2.render_width == w && c2.line_numbers == a2.options.line_numbers && c2.lines@.len() > 0 {
    } else {
        let c3 = a3.preview->0;
        assert(crate::render::style::lines_view(c3.lines@).len() == c3.lines@.len());
        assert(crate::render::style::lines_view(c2.lines@).len() == c2.lines@.len());
        assert(a3.max_scroll() == a2.max_scroll());
    }
}

/// What the preview needs before it is drawn.
#[derive(Debug)]
pub enum PreviewRequest {
    /// No document is selected: drop the preview.
    Clear,
    /// Read this file and hand its text (or the error) to `load_preview`.
    Load(String),
    /// The cached text is the selected document's.
    Ready,
}

impl App {
    /// The cached preview is of the selected document as it was read.
    pub open spec fn preview_current(&self) -> bool {
        match (self.preview, self.selected_doc_index()) {
            (Some(c), Some(i)) => c.path@ == self.index.documents@[i].absolute_path@ && c.modified
                == self.index.documents@[i].modified && c.size == self.index.documents@[i].size,
            _ => false,
        }
    }

    pub fn preview_request(&self) -> (r: PreviewRequest)
        ensures
            match self.selected_doc_index() {
                None => r is Clear,
                Some(i) => if self.preview_current() {
                    r is Ready
                } else {
                    r matches PreviewRequest::Load(p) && p@ == self.index.documents@[i].absolute_path@
                },
            },
    {
        let d = match self.selected_document() {
            Some(d) => d,
            None => return PreviewRequest::Clear,
        };
        let current = match &self.preview {
            Some(c) => {
                let a = chars_of(c.path.as_str());
                let b = chars_of(d.absolute_path.as_str());
                same_chars(a.as_slice(), b.as_slice()) && c.modified == d.modified && c.size == d.size
            },
            None => false,
        };
        if current {
            PreviewRequest::Ready
        } else {
            PreviewRequest::Load(d.absolute_path.clone())
        }
    }

    pub fn clear_preview(&mut self)
        ensures
            final(self).preview is None,
            final(self).preview_scroll == 0,
            final(self).options == old(self).options,
            final(self).index == old(self).index,
            final(self).rows == old(self).rows,
            final(self).selected == old(self).selected,
            final(self).focus == old(self).focus,
            final(self).filter == old(self).filter,
            final(self).collapsed == old(self).collapsed,
            final(self).preview_viewport_height == old(self).preview_viewport_height,
            final(self).scan_options == old(self).scan_options,
            final(self).filter_editing == old(self).filter_editing,
            final(self).help == old(self).help,
            final(self).tree_offset == old(self).tree_offset,
            final(self).status == old(self).status,
    {
        self.preview = None;
        self.preview_scroll = 0;
    }

    /// Caches the selected document's text (after its frontmatter), or why it could not be
    /// read (`Cannot read <path>: <error>`), and scrolls the preview to the top.
    pub fn load_preview(&mut self, read: Result<String, String>)
        requires
            old(self).selected_doc_index() is Some,
        ensures
            load_effect(old(self), final(self), read),
    {
        let d = match self.selected_document() {
            Some(d) => d,
            None => return,
        };
        let path = d.absolute_path.clone();
        let modified = d.modified;
        let size = d.size;
        let (source, error) = match read {
            Ok(text) => (Some(crate::document::strip_frontmatter(text.as_str())), None),
            Err(e) => {
                let mut m = String::from_str("Cannot read ");
                m.append(path.as_str());
                m.append(": ");
                m.append(e.as_str());
                (None, Some(m))
            },
        };
        self.preview = Some(PreviewCache {
            path,
            modified,
            size,
            source,
            error,
            render_width: 0,
            line_numbers: self.options.line_numbers,
            lines: Vec::new(),
        });
        self.preview_scroll = 0;
    }

    /// Draws the cached preview for `width` columns (at least 8) unless it is already drawn
    /// for that width and numbering, then keeps the scroll within the lines.
    pub fn refresh_preview(&mut self, width: usize)
        requires
            old(self).preview is Some,
        ensures
            refresh_effect(old(self), final(self), width),
    {
        let w: usize = if width < 8 { 8 } else { width };
        let numbers = self.options.line_numbers;
        let theme = self.options.theme;
        let cache = match self.preview.take() {
            Some(c) => c,
            None => return,
        };
        if cache.render_width == w && cache.line_numbers == numbers && cache.lines.len() > 0 {
            self.preview = Some(cache);
            return;
        }
        let PreviewCache { path, modified, size, source, error, render_width: _, line_numbers: _, lines: _ } = cache;
        let lines = match &error {
            Some(e) => {
                let mut spans: Vec<crate::render::style::Span> = Vec::new();
                spans.push(crate::render::style::span(
                    e.clone(),
                    crate::render::style::Style {
                        fg: Some(crate::render::style::Color::Red),
                        bg: None,
                        bold: false,
                        italic: false,
                        underlined: false,
                        crossed_out: false,
                    },
                ));
                let line = crate::render::style::Line { spans };
                assert(line@ =~= seq![(e@, tinted(crate::render::style::Color::Red))]);
                let mut v: Vec<crate::render::style::Line> = Vec::new();
                let ghost lv = line@;
                v.push(line);
                assert(crate::render::style::lines_view(v@) =~= seq![lv]);
                v
            },
            None => {
                let cw: usize = if numbers {
                    if w >= 15 { w - 7 } else { 8 }
                } else {
                    w
                };
                let text: String = match &source {
                    Some(s) => s.clone(),
                    None => String::new(),
                };
                assert(text@ == match crate::tunnel::text_of(source) { Some(x) => x, None => Seq::<char>::empty() });
                let rendered = crate::render::builder::render_lines(text.as_str(), cw, theme);
                if numbers {
                    add_line_numbers(rendered)
                } else {
                    rendered
                }
            },
        };
        let ghost lv = crate::render::style::lines_view(lines@);
        assert(lv == preview_lines(self.options, crate::tunnel::text_of(source), crate::tunnel::text_of(error), w));
        self.preview = Some(PreviewCache { path, modified, size, source, error, render_width: w, line_numbers: numbers, lines });
        let max = self.max_preview_scroll();
        if self.preview_scroll > max {
            self.preview_scroll = max;
        }
    }
}

// ---------------------------------------------------------------- what is drawn

pub open spec fn colored(fg: crate::render::style::Color, bg: Option<crate::render::style::Color>, bold: bool) -> crate::render::style::Style {
    crate::render::style::Style { fg: Some(fg), bg, bold, italic: false, underlined: false, crossed_out: false }
}

fn style_of(fg: crate::render::style::Color, bg: Option<crate::render::style::Color>, bold: bool) -> (r: crate::render::style::Style)
    ensures
        r == colored(fg, bg, bold),
{
    crate::render::style::Style { fg: Some(fg), bg, bold, italic: false, underlined: false, crossed_out: false }
}

/// The tree's title: the document count, and the shown count while filtering.
pub open spec fn tree_title_of(filter_empty: bool, shown: nat, total: nat) -> Seq<char> {
    if filter_empty {
        " Files ("@ + crate::text::dec(total) + ") "@
    } else {
        " Files ("@ + crate::text::dec(shown) + "/"@ + crate::text::dec(total) + ") "@
    }
}

/// One tree row as drawn: indentation by depth, an icon (folded `▸`, unfolded `▾`,
/// document `◆`) and the label, folders in bold yellow, documents in white.
pub open spec fn row_line(row: RowV, folded: bool) -> crate::render::style::LineV {
    let (icon, style) = match row.key {
        KeyV::Folder(_) => (if folded { "▸ "@ } else { "▾ "@ }, colored(crate::render::style::Color::Yellow, None, true)),
        KeyV::Document(_) => ("◆ "@, colored(crate::render::style::Color::White, None, false)),
    };
    seq![
        (crate::render::terminal::repeat_char(' ', 2 * row.depth), crate::render::style::plain_style()),
        (icon, style),
        (row.label, style),
    ]
}

impl App {
    /// A folder row shows as folded when it is folded and no filter is set.
    pub open spec fn shows_folded(&self, row: RowV) -> bool {
        match row.key {
            KeyV::Folder(p) => strings_view(self.collapsed@).contains(p) && self.filter@.len() == 0,
            KeyV::Document(_) => false,
        }
    }

    /// The lines of the tree pane: one per row (see `row_line`), or a note in grey when
    /// there are none.
    pub open spec fn tree_lines_of(&self) -> Seq<crate::render::style::LineV> {
        let rows = self.rows_v();
        if rows.len() == 0 {
            seq![seq![(
                if self.filter@.len() == 0 { "  No Markdown files found"@ } else { "  No files match this filter"@ },
                colored(crate::render::style::Color::DarkGray, None, false),
            )]]
        } else {
            Seq::new(rows.len(), |i: int| row_line(rows[i], self.shows_folded(rows[i])))
        }
    }

    pub fn tree_title(&self) -> (r: String)
        ensures
            r@ == tree_title_of(self.filter@.len() == 0, Self::doc_rows_in(self.rows_v()), self.index.documents@.len()),
    {
        let total = self.index.documents.len();
        let empty = chars_of(self.filter.as_str()).len() == 0;
        let mut s = String::from_str(" Files (");
        if !empty {
            let shown = self.visible_document_count();
            crate::text::push_decimal(&mut s, shown as u64);
            s.append("/");
        }
        crate::text::push_decimal(&mut s, total as u64);
        s.append(") ");
        s
    }

    pub fn tree_lines(&self) -> (r: Vec<crate::render::style::Line>)
        ensures
            crate::render::style::lines_view(r@) == self.tree_lines_of(),
    {
        let mut out: Vec<crate::render::style::Line> = Vec::new();
        let empty_filter = chars_of(self.filter.as_str()).len() == 0;
        if self.rows.len() == 0 {
            let text = if empty_filter { "  No Markdown files found" } else { "  No files match this filter" };
            let mut spans: Vec<crate::render::style::Span> = Vec::new();
            spans.push(crate::render::style::span_str(text, style_of(crate::render::style::Color::DarkGray, None, false)));
            let line = crate::render::style::Line { spans };
            let ghost lv = line@;
            assert(lv =~= seq![(text@, colored(crate::render::style::Color::DarkGray, None, false))]);
            out.push(line);
            assert(crate::render::style::lines_view(out@) =~= seq![lv]);
            return out;
        }
        let ghost rv = self.rows_v();
        let mut i: usize = 0;
        while i < self.rows.len()
            invariant
                rv == self.rows_v(),
                i <= self.rows@.len(),
                empty_filter == (self.filter@.len() == 0),
                out@.len() == i,
                forall|j: int| 0 <= j < i ==> (#[trigger] crate::render::style::lines_view(out@)[j]) == row_line(
                    rv[j],
                    self.shows_folded(rv[j]),
                ),
            decreases self.rows@.len() - i,
        {
            let row = &self.rows[i];
            let indent = crate::render::builder::indent_of(row.depth);
            let (icon, style) = match &row.key {
                NodeKey::Folder(p) => {
                    let folded = in_strings(&self.collapsed, p.as_str()) && empty_filter;
                    (if folded { "▸ " } else { "▾ " }, style_of(crate::render::style::Color::Yellow, None, true))
                },
                NodeKey::Document(_) => ("◆ ", style_of(crate::render::style::Color::White, None, false)),
            };
            let mut spans: Vec<crate::render::style::Span> = Vec::new();
            spans.push(crate::render::style::span(indent, crate::render::style::Style::plain()));
            spans.push(crate::render::style::span_str(icon, style));
            spans.push(crate::render::style::span(row.label.clone(), style));
            let line = crate::render::style::Line { spans };
            let ghost lv = line@;
            assert(lv =~= row_line(rv[i as int], self.shows_folded(rv[i as int])));
            let ghost before = crate::render::style::lines_view(out@);
            out.push(line);
            assert(crate::render::style::lines_view(out@) =~= before.push(lv));
            i = i + 1;
        }
        assert(crate::render::style::lines_view(out@) =~= self.tree_lines_of());
        out
    }
}

// ---------------------------------------------------------------- header, footer, help

pub open spec fn focus_label(f: Focus) -> Seq<char> {
    match f {
        Focus::Tree => "files"@,
        Focus::Preview => "preview"@,
    }
}

/// The path of a tree node.
pub open spec fn key_path(k: KeyV) -> Seq<char> {
    match k {
        KeyV::Folder(p) => p,
        KeyV::Document(p) => p,
    }
}

/// The header line: the program's badge, the root's folder name (`/` where it has none)
/// and what the browser is.
pub open spec fn header_of(root: Seq<char>) -> crate::render::style::LineV {
    let name = match file_name(root) {
        Some(n) => n,
        None => "/"@,
    };
    seq![
        (" glow "@, colored(crate::render::style::Color::Black, Some(crate::render::style::Color::Cyan), true)),
        ("  "@ + name + "  •  recursive Markdown browser"@, colored(crate::render::style::Color::Cyan, None, true)),
    ]
}

/// The key reminder on the footer's second line, with the filter when one is set.
pub open spec fn key_reminder(filter: Seq<char>) -> Seq<char> {
    " ↑↓/jk move or scroll  Enter open/toggle  Tab pane  / filter  PgUp/PgDn  r refresh  ? help  q quit"@
        + if filter.len() == 0 {
        seq![]
    } else {
        "  •  filter: /"@ + filter
    }
}

/// The footer: the selected path (or `—`), the file count (shown of total while
/// filtering), the focused pane and the status; then the filter being typed, or the keys.
pub open spec fn footer_of(
    selected: Option<KeyV>,
    filter: Seq<char>,
    shown: nat,
    total: nat,
    focus: Focus,
    status: Seq<char>,
    editing: bool,
) -> Seq<crate::render::style::LineV> {
    let sel = match selected {
        Some(k) => key_path(k),
        None => "—"@,
    };
    let count = if filter.len() == 0 {
        crate::text::dec(total) + " files"@
    } else {
        crate::text::dec(shown) + "/"@ + crate::text::dec(total) + " files"@
    };
    let first = seq![
        (" "@ + sel + " "@, colored(crate::render::style::Color::Black, Some(crate::render::style::Color::Cyan), true)),
        ("  "@ + count + "  •  focus: "@ + focus_label(focus) + "  •  "@ + status, colored(crate::render::style::Color::Gray, None, false)),
    ];
    let second = if editing {
        seq![
            (" / "@, colored(crate::render::style::Color::Black, Some(crate::render::style::Color::Yellow), false)),
            (filter + "█"@, colored(crate::render::style::Color::Yellow, None, false)),
            ("  Enter accept  Esc close"@, colored(crate::render::style::Color::DarkGray, None, false)),
        ]
    } else {
        seq![(key_reminder(filter), colored(crate::render::style::Color::DarkGray, None, false))]
    };
    seq![first, second]
}

/// A line of one span.
fn one_span_line(text: String, style: crate::render::style::Style) -> (l: crate::render::style::Line)
    ensures
        l@ == seq![(text@, style)],
{
    let mut spans: Vec<crate::render::style::Span> = Vec::new();
    spans.push(crate::render::style::span(text, style));
    let l = crate::render::style::Line { spans };
    assert(l@ =~= seq![(text@, style)]);
    l
}

/// The help window's lines: section titles in bold cyan, the keys in plain text.
pub open spec fn help_of() -> Seq<crate::render::style::LineV> {
    let title = colored(crate::render::style::Color::Cyan, None, true);
    let plain = crate::render::style::plain_style();
    seq![
        seq![("Navigation"@, title)],
        seq![("  ↑/↓ or j/k       move files / scroll preview"@, plain)],
        seq![("  Enter / →        expand folder or open preview"@, plain)],
        seq![("  ←                collapse folder / select parent"@, plain)],
        seq![("  Tab              switch files and preview"@, plain)],
        seq![("  g / G            first/top and last/bottom"@, plain)],
        seq![("  PgUp / PgDn      scroll preview by a page"@, plain)],
        seq![(""@, plain)],
        seq![("Workspace"@, title)],
        seq![("  /                filter paths and titles"@, plain)],
        seq![("  r                rescan now (changes are auto-watched)"@, plain)],
        seq![("  q / Esc          quit"@, plain)],
        seq![("  ?                close this help"@, plain)],
    ]
}

pub fn help_lines() -> (r: Vec<crate::render::style::Line>)
    ensures
        crate::render::style::lines_view(r@) == help_of(),
{
    let title = style_of(crate::render::style::Color::Cyan, None, true);
    let plain = crate::render::style::Style::plain();
    let mut out: Vec<crate::render::style::Line> = Vec::new();
    out.push(one_span_line(String::from_str("Navigation"), title));
    out.push(one_span_line(String::from_str("  ↑/↓ or j/k       move files / scroll preview"), plain));
    out.push(one_span_line(String::from_str("  Enter / →        expand folder or open preview"), plain));
    out.push(one_span_line(String::from_str("  ←                collapse folder / select parent"), plain));
    out.push(one_span_line(String::from_str("  Tab              switch files and preview"), plain));
    out.push(one_span_line(String::from_str("  g / G            first/top and last/bottom"), plain));
    out.push(one_span_line(String::from_str("  PgUp / PgDn      scroll preview by a page"), plain));
    out.push(one_span_line(String::from_str(""), plain));
    out.push(one_span_line(String::from_str("Workspace"), title));
    out.push(one_span_line(String::from_str("  /                filter paths and titles"), plain));
    out.push(one_span_line(String::from_str("  r                rescan now (changes are auto-watched)"), plain));
    out.push(one_span_line(String::from_str("  q / Esc          quit"), plain));
    out.push(one_span_line(String::from_str("  ?                close this help"), plain));
    assert(crate::render::style::lines_view(out@) =~= help_of());
    out
}

impl App {
    pub fn header_line(&self) -> (r: crate::render::style::Line)
        ensures
            r@ == header_of(self.index.root@),
    {
        let root = chars_of(self.index.root.as_str());
        let name = match file_name_range(root.as_slice()) {
            Some((a, b)) => string_of(root.as_slice(), a, b),
            None => String::from_str("/"),
        };
        let mut spans: Vec<crate::render::style::Span> = Vec::new();
        spans.push(crate::render::style::span_str(
            " glow ",
            style_of(crate::render::style::Color::Black, Some(crate::render::style::Color::Cyan), true),
        ));
        let mut rest = String::from_str("  ");
        rest.append(name.as_str());
        rest.append("  •  recursive Markdown browser");
        spans.push(crate::render::style::span(rest, style_of(crate::render::style::Color::Cyan, None, true)));
        let l = crate::render::style::Line { spans };
        assert(l@ =~= header_of(self.index.root@));
        l
    }

    pub fn footer_lines(&self) -> (r: Vec<crate::render::style::Line>)
        ensures
            crate::render::style::lines_view(r@) == footer_of(
                selected_key_of(self.rows_v(), self.selected as int),
                self.filter@,
                Self::doc_rows_in(self.rows_v()),
                self.index.documents@.len(),
                self.focus,
                self.status@,
                self.filter_editing,
            ),
    {
        let ghost f = footer_of(
            selected_key_of(self.rows_v(), self.selected as int),
            self.filter@,
            Self::doc_rows_in(self.rows_v()),
            self.index.documents@.len(),
            self.focus,
            self.status@,
            self.filter_editing,
        );
        let ghost sel_text = match selected_key_of(self.rows_v(), self.selected as int) {
            Some(k) => key_path(k),
            None => "—"@,
        };
        let mut sel = String::from_str(" ");
        match self.selected_key() {
            Some(NodeKey::Folder(p)) => sel.append(p.as_str()),
            Some(NodeKey::Document(p)) => sel.append(p.as_str()),
            None => sel.append("—"),
        }
        sel.append(" ");
        assert(sel@ == " "@ + sel_text + " "@);
        let filter_empty = chars_of(self.filter.as_str()).len() == 0;
        let ghost count = if self.filter@.len() == 0 {
            crate::text::dec(self.index.documents@.len()) + " files"@
        } else {
            crate::text::dec(Self::doc_rows_in(self.rows_v())) + "/"@ + crate::text::dec(self.index.documents@.len())
                + " files"@
        };
        let mut info = String::from_str("  ");
        if !filter_empty {
            crate::text::push_decimal(&mut info, self.visible_document_count() as u64);
            info.append("/");
        }
        crate::text::push_decimal(&mut info, self.index.documents.len() as u64);
        info.append(" files");
        assert(info@ == "  "@ + count);
        info.append("  •  focus: ");
        info.append(self.focus.label());
        info.append("  •  ");
        info.append(self.status.as_str());
        assert(info@ == "  "@ + count + "  •  focus: "@ + focus_label(self.focus) + "  •  "@ + self.status@);
        let style1 = style_of(crate::render::style::Color::Black, Some(crate::render::style::Color::Cyan), true);
        let style2 = style_of(crate::render::style::Color::Gray, None, false);
        let mut first_spans: Vec<crate::render::style::Span> = Vec::new();
        first_spans.push(crate::render::style::span(sel, style1));
        first_spans.push(crate::render::style::span(info, style2));
        let first = crate::render::style::Line { spans: first_spans };
        assert(first@ =~= f[0]);
        let second = if self.filter_editing {
            let mut spans: Vec<crate::render::style::Span> = Vec::new();
            spans.push(crate::render::style::span_str(
                " / ",
                style_of(crate::render::style::Color::Black, Some(crate::render::style::Color::Yellow), false),
            ));
            let mut typed = self.filter.clone();
            typed.append("█");
            spans.push(crate::render::style::span(typed, style_of(crate::render::style::Color::Yellow, None, false)));
            spans.push(crate::render::style::span_str(
                "  Enter accept  Esc close",
                style_of(crate::render::style::Color::DarkGray, None, false),
            ));
            let l = crate::render::style::Line { spans };
            assert(l@ =~= f[1]);
            l
        } else {
            let mut keys = String::from_str(
                " ↑↓/jk move or scroll  Enter open/toggle  Tab pane  / filter  PgUp/PgDn  r refresh  ? help  q quit",
            );
            if !filter_empty {
                keys.append("  •  filter: /");
                keys.append(self.filter.as_str());
            }
            assert(keys@ =~= key_reminder(self.filter@));
            let l = one_span_line(keys, style_of(crate::render::style::Color::DarkGray, None, false));
            assert(l@ =~= f[1]);
            l
        };
        let mut out: Vec<crate::render::style::Line> = Vec::new();
        out.push(first);
        out.push(second);
        assert(crate::render::style::lines_view(out@) =~= f);
        out
    }

    /// The preview pane's title: the selected document's path, or `Preview`.
    pub fn preview_title(&self) -> (r: String)
        ensures
            r@ == match self.selected_doc_index() {
                Some(i) => " "@ + self.index.documents@[i].relative_path@ + " "@,
                None => " Preview "@,
            },
    {
        match self.selected_document() {
            Some(d) => {
                let mut t = String::from_str(" ");
                t.append(d.relative_path.as_str());
                t.append(" ");
                t
            },
            None => String::from_str(" Preview "),
        }
    }
}

/// Which panes are drawn: both on terminals at least 88 columns wide, else the focused one.
pub fn visible_panes(width: u16, focus: Focus) -> (r: (bool, bool))
    ensures
        r == (if width >= 88 {
            (true, true)
        } else {
            (focus == Focus::Tree, focus == Focus::Preview)
        }),
{
    if width >= 88 {
        (true, true)
    } else {
        match focus {
            Focus::Tree => (true, false),
            Focus::Preview => (false, true),
        }
    }
}

/// A window centred in `area`: `percent_x` percent of its width (at least 32 columns, at
/// most the area) and `height` rows (at most the area's).
pub open spec fn centered_of(percent_x: u16, height: u16, area: Rect) -> Rect {
    let scaled = if area.width * percent_x > u16::MAX { u16::MAX as int } else { area.width * percent_x };
    let w0 = if scaled / 100 < 32 { 32 } else { scaled / 100 };
    let w = if w0 > area.width { area.width as int } else { w0 };
    let h = if height > area.height { area.height } else { height };
    Rect {
        x: (area.x + (area.width - w) / 2) as u16,
        y: (area.y + (area.height - h) / 2) as u16,
        width: w as u16,
        height: h,
    }
}

pub fn centered_rect(percent_x: u16, height: u16, area: Rect) -> (r: Rect)
    requires
        area.x + area.width <= u16::MAX,
        area.y + area.height <= u16::MAX,
    ensures
        r == centered_of(percent_x, height, area),
{
    assert((area.width as u32) * (percent_x as u32) <= 65535u32 * 65535u32) by (nonlinear_arith)
        requires
            area.width <= 65535,
            percent_x <= 65535,
    ;
    let product = area.width as u32 * percent_x as u32;
    let scaled: u16 = if product > 65535 { 65535 } else { product as u16 };
    let width = scaled / 100;
    let width = if width < 32 { 32 } else { width };
    let width = if width > area.width { area.width } else { width };
    let height = if height > area.height { area.height } else { height };
    Rect {
        x: area.x + (area.width - width) / 2,
        y: area.y + (area.height - height) / 2,
        width,
        height,
    }
}

// ---------------------------------------------------------------- pasting

/// `s` without its line breaks.
pub open spec fn without_line_breaks(s: Seq<char>) -> Seq<char> {
    s.filter(|c: char| c != '\n' && c != '\r')
}

impl App {
    /// Text pasted while the filter is being typed joins the filter without its line
    /// breaks, and the rows are rebuilt; at any other time it is ignored.
    pub fn paste(&mut self, text: &str)
        ensures
            !old(self).filter_editing ==> *final(self) == *old(self),
            old(self).filter_editing ==> {
                &&& final(self).filter@ == old(self).filter@ + without_line_breaks(text@)
                &&& final(self).rebuilt_from(old(self), None)
                &&& final(self).index == old(self).index
                &&& final(self).collapsed == old(self).collapsed
                &&& final(self).options == old(self).options
                &&& final(self).focus == old(self).focus
                &&& final(self).filter_editing
            },
    {
        if !self.filter_editing {
            return;
        }
        let chars = chars_of(text);
        let ghost keep = |c: char| c != '\n' && c != '\r';
        let mut kept = String::new();
        let mut i: usize = 0;
        while i < chars.len()
            invariant
                i <= chars@.len(),
                chars@ == text@,
                keep == (|c: char| c != '\n' && c != '\r'),
                kept@ == chars@.take(i as int).filter(keep),
            decreases chars@.len() - i,
        {
            proof {
                assert(chars@.take(i + 1) == chars@.take(i as int).push(chars@[i as int]));
                chars@.take(i as int).lemma_filter_push(chars@[i as int], keep);
            }
            if chars[i] != '\n' && chars[i] != '\r' {
                crate::calls::push_char(&mut kept, chars[i]);
            }
            i = i + 1;
        }
        assert(chars@.take(chars@.len() as int) == chars@);
        self.filter.append(kept.as_str());
        self.rebuild_rows(None);
    }
}

// ---------------------------------------------------------------- folding hides

/// The components of a row's path.
pub open spec fn row_comps(r: RowV) -> Seq<Seq<char>> {
    components(key_path(r.key))
}

/// `c` begins with `p` (a path inside `p`, or `p` itself).
pub open spec fn begins_with(c: Seq<Seq<char>>, p: Seq<Seq<char>>) -> bool {
    p.len() <= c.len() && c.take(p.len() as int) == p
}

/// `c` lies strictly inside `p`.
pub open spec fn strictly_inside(c: Seq<Seq<char>>, p: Seq<Seq<char>>) -> bool {
    p.len() < c.len() && c.take(p.len() as int) == p
}

proof fn lemma_doc_kids_in(docs: Seq<Document>, parent: Seq<Seq<char>>, n: int)
    requires
        n <= docs.len() <= usize::MAX,
    ensures
        forall|j: int| 0 <= j < doc_kids(docs, parent, n).len() ==> {
            let e = #[trigger] doc_kids(docs, parent, n)[j];
            e.1 < docs.len() && parent_comps(docs[e.1 as int].relative_path@) == parent
        },
    decreases n,
{
    if n > 0 {
        lemma_doc_kids_in(docs, parent, n - 1);
        let before = doc_kids(docs, parent, n - 1);
        assert forall|j: int| 0 <= j < doc_kids(docs, parent, n).len() implies {
            let e = #[trigger] doc_kids(docs, parent, n)[j];
            e.1 < docs.len() && parent_comps(docs[e.1 as int].relative_path@) == parent
        } by {
            let extra = if parent_comps(docs[n - 1].relative_path@) == parent {
                seq![(lowercased(docs[n - 1].relative_path@), (n - 1) as usize)]
            } else {
                seq![]
            };
            assert(doc_kids(docs, parent, n) == before + extra);
            if j < before.len() {
                assert(doc_kids(docs, parent, n)[j] == before[j]);
            } else {
                assert(doc_kids(docs, parent, n)[j] == extra[j - before.len()]);
            }
        }
    }
}

proof fn lemma_parent_prefix(c: Seq<Seq<char>>, parent: Seq<Seq<char>>)
    requires
        (if c.len() > 0 { c.drop_last() } else { c }) == parent,
    ensures
        begins_with(c, parent),
        c.len() > 0 ==> c.len() == parent.len() + 1,
{
    if c.len() > 0 {
        assert(c.take(parent.len() as int) == c.drop_last());
    } else {
        assert(c.take(0) == parent);
    }
}

/// The tree nests: every row shown below a folder has a path inside that folder.
pub proof fn lemma_tree_rows_inside(t: TreeInput, parent: Seq<Seq<char>>, depth: nat, anc: bool)
    requires
        t.docs.len() <= usize::MAX,
    ensures
        forall|i: int| 0 <= i < subtree(t, parent, depth, anc).len() ==> begins_with(
            row_comps(#[trigger] subtree(t, parent, depth, anc)[i]),
            parent,
        ),
    decreases tree_limit(t) - parent.len(), 1int, 0int,
{
    if parent.len() <= tree_limit(t) {
        let fk = keyed_sort(folder_kids(t.folders, parent, t.folders.len() as int));
        let dk = keyed_sort(doc_kids(t.docs, parent, t.docs.len() as int));
        lemma_folder_rows_begin(t, fk, 0, parent, depth, anc);
        lemma_doc_kids_in(t.docs, parent, t.docs.len() as int);
        let p = |e: (Seq<char>, usize)| e.1 < t.docs.len() && parent_comps(t.docs[e.1 as int].relative_path@) == parent;
        assert forall|j: int| 0 <= j < doc_kids(t.docs, parent, t.docs.len() as int).len() implies p(
            #[trigger] doc_kids(t.docs, parent, t.docs.len() as int)[j],
        ) by {}
        lemma_keyed_sort_keeps(doc_kids(t.docs, parent, t.docs.len() as int), p);
        lemma_doc_rows_begin(t, dk, 0, parent, depth, anc);
        let a = folder_rows(t, fk, 0, parent, depth, anc);
        let b = doc_rows(t, dk, 0, depth, anc);
        let all = subtree(t, parent, depth, anc);
        assert(all == a + b);
        assert forall|i: int| 0 <= i < all.len() implies begins_with(row_comps(#[trigger] all[i]), parent) by {
            if i < a.len() {
                assert(all[i] == a[i]);
            } else {
                assert(all[i] == b[i - a.len()]);
            }
        }
    }
}

proof fn lemma_folder_rows_begin(
    t: TreeInput,
    kids: Seq<(Seq<char>, usize)>,
    k: int,
    parent: Seq<Seq<char>>,
    depth: nat,
    anc: bool,
)
    requires
        t.docs.len() <= usize::MAX,
    ensures
        forall|i: int| 0 <= i < folder_rows(t, kids, k, parent, depth, anc).len() ==> begins_with(
            row_comps(#[trigger] folder_rows(t, kids, k, parent, depth, anc)[i]),
            parent,
        ),
    decreases tree_limit(t) - parent.len(), 0int, kids.len() - k,
{
    if 0 <= k < kids.len() {
        let idx = kids[k].1 as int;
        let rest = folder_rows(t, kids, k + 1, parent, depth, anc);
        lemma_folder_rows_begin(t, kids, k + 1, parent, depth, anc);
        let all = folder_rows(t, kids, k, parent, depth, anc);
        if idx < t.folders.len() && is_child_folder(t.folders[idx]@, parent) {
            let f = t.folders[idx]@;
            let own = path_matches(f, t.query);
            let inh = anc || own;
            if !(t.query.len() > 0 && !inh && !folder_has_match(t.docs, t.folders, f, t.query)) {
                let row = RowV { key: KeyV::Folder(f), depth, document_index: None, label: row_label(f) };
                let cf = components(f);
                assert(begins_with(row_comps(row), parent));
                let sub = if t.query.len() == 0 && t.collapsed.contains(f) {
                    Seq::<RowV>::empty()
                } else {
                    lemma_max_comps(t.folders, t.folders.len() as int, idx);
                    lemma_tree_rows_inside(t, cf, depth + 1, inh);
                    subtree(t, cf, depth + 1, inh)
                };
                assert(all == seq![row] + sub + rest);
                assert forall|i: int| 0 <= i < all.len() implies begins_with(row_comps(#[trigger] all[i]), parent) by {
                    if i == 0 {
                        assert(all[i] == row);
                    } else if i < 1 + sub.len() {
                        assert(all[i] == sub[i - 1]);
                        let c = row_comps(sub[i - 1]);
                        assert(begins_with(c, cf));
                        assert(c.take(parent.len() as int) == c.take(cf.len() as int).take(parent.len() as int));
                    } else {
                        assert(all[i] == rest[i - 1 - sub.len()]);
                    }
                }
            }
        }
    }
}

proof fn lemma_doc_rows_begin(
    t: TreeInput,
    kids: Seq<(Seq<char>, usize)>,
    k: int,
    parent: Seq<Seq<char>>,
    depth: nat,
    anc: bool,
)
    requires
        forall|j: int| 0 <= j < kids.len() ==> {
            let e = #[trigger] kids[j];
            e.1 < t.docs.len() && parent_comps(t.docs[e.1 as int].relative_path@) == parent
        },
    ensures
        forall|i: int| 0 <= i < doc_rows(t, kids, k, depth, anc).len() ==> begins_with(
            row_comps(#[trigger] doc_rows(t, kids, k, depth, anc)[i]),
            parent,
        ),
    decreases kids.len() - k,
{
    if 0 <= k < kids.len() {
        lemma_doc_rows_begin(t, kids, k + 1, parent, depth, anc);
        let idx = kids[k].1 as int;
        let rest = doc_rows(t, kids, k + 1, depth, anc);
        let all = doc_rows(t, kids, k, depth, anc);
        if idx < t.docs.len() {
            let d = t.docs[idx];
            if !(t.query.len() > 0 && !anc && !doc_matches(d, t.query)) {
                let row = RowV {
                    key: KeyV::Document(d.relative_path@),
                    depth,
                    document_index: Some(idx as usize),
                    label: row_label(d.relative_path@),
                };
                lemma_parent_prefix(components(d.relative_path@), parent);
                assert(all == seq![row] + rest);
                assert forall|i: int| 0 <= i < all.len() implies begins_with(row_comps(#[trigger] all[i]), parent) by {
                    if i > 0 {
                        assert(all[i] == rest[i - 1]);
                    }
                }
            }
        }
    }
}

/// Folders are told apart by their components.
pub open spec fn distinct_folders(folders: Seq<String>) -> bool {
    forall|i: int, j: int|
        0 <= i < folders.len() && 0 <= j < folders.len() && components(#[trigger] folders[i]@)
            == components(#[trigger] folders[j]@) ==> i == j
}

proof fn lemma_one_level_not_inside(c: Seq<Seq<char>>, parent: Seq<Seq<char>>, cf: Seq<Seq<char>>)
    requires
        begins_with(c, parent),
        c.len() <= parent.len() + 1,
        !begins_with(parent, cf),
    ensures
        !strictly_inside(c, cf),
{
    if strictly_inside(c, cf) {
        assert(cf.len() <= parent.len());
        assert(c.take(cf.len() as int) == c.take(parent.len() as int).take(cf.len() as int));
        assert(parent.take(cf.len() as int) == cf);
    }
}

proof fn lemma_subtree_hides(t: TreeInput, parent: Seq<Seq<char>>, depth: nat, anc: bool, i0: int)
    requires
        t.docs.len() <= usize::MAX,
        t.query.len() == 0,
        0 <= i0 < t.folders.len(),
        t.collapsed.contains(t.folders[i0]@),
        distinct_folders(t.folders),
        !begins_with(parent, components(t.folders[i0]@)),
    ensures
        forall|i: int| 0 <= i < subtree(t, parent, depth, anc).len() ==> !strictly_inside(
            row_comps(#[trigger] subtree(t, parent, depth, anc)[i]),
            components(t.folders[i0]@),
        ),
    decreases tree_limit(t) - parent.len(), 1int, 0int,
{
    if parent.len() <= tree_limit(t) {
        let cf = components(t.folders[i0]@);
        let fk = keyed_sort(folder_kids(t.folders, parent, t.folders.len() as int));
        let dk = keyed_sort(doc_kids(t.docs, parent, t.docs.len() as int));
        lemma_folder_rows_hide(t, fk, 0, parent, depth, anc, i0);
        lemma_doc_kids_in(t.docs, parent, t.docs.len() as int);
        let p = |e: (Seq<char>, usize)| e.1 < t.docs.len() && parent_comps(t.docs[e.1 as int].relative_path@) == parent;
        assert forall|j: int| 0 <= j < doc_kids(t.docs, parent, t.docs.len() as int).len() implies p(
            #[trigger] doc_kids(t.docs, parent, t.docs.len() as int)[j],
        ) by {}
        lemma_keyed_sort_keeps(doc_kids(t.docs, parent, t.docs.len() as int), p);
        lemma_doc_rows_hide(t, dk, 0, parent, depth, anc, cf);
        let a = folder_rows(t, fk, 0, parent, depth, anc);
        let b = doc_rows(t, dk, 0, depth, anc);
        let all = subtree(t, parent, depth, anc);
        assert(all == a + b);
        assert forall|i: int| 0 <= i < all.len() implies !strictly_inside(row_comps(#[trigger] all[i]), cf) by {
            if i < a.len() {
                assert(all[i] == a[i]);
            } else {
                assert(all[i] == b[i - a.len()]);
            }
        }
    }
}

proof fn lemma_folder_rows_hide(
    t: TreeInput,
    kids: Seq<(Seq<char>, usize)>,
    k: int,
    parent: Seq<Seq<char>>,
    depth: nat,
    anc: bool,
    i0: int,
)
    requires
        t.docs.len() <= usize::MAX,
        t.query.len() == 0,
        0 <= i0 < t.folders.len(),
        t.collapsed.contains(t.folders[i0]@),
        distinct_folders(t.folders),
        !begins_with(parent, components(t.folders[i0]@)),
    ensures
        forall|i: int| 0 <= i < folder_rows(t, kids, k, parent, depth, anc).len() ==> !strictly_inside(
            row_comps(#[trigger] folder_rows(t, kids, k, parent, depth, anc)[i]),
            components(t.folders[i0]@),
        ),
    decreases tree_limit(t) - parent.len(), 0int, kids.len() - k,
{
    if 0 <= k < kids.len() {
        let cf = components(t.folders[i0]@);
        let idx = kids[k].1 as int;
        let rest = folder_rows(t, kids, k + 1, parent, depth, anc);
        lemma_folder_rows_hide(t, kids, k + 1, parent, depth, anc, i0);
        let all = folder_rows(t, kids, k, parent, depth, anc);
        if idx < t.folders.len() && is_child_folder(t.folders[idx]@, parent) {
            let g = t.folders[idx]@;
            let cg = components(g);
            let own = path_matches(g, t.query);
            let inh = anc || own;
            let row = RowV { key: KeyV::Folder(g), depth, document_index: None, label: row_label(g) };
            assert(begins_with(cg, parent));
            lemma_one_level_not_inside(cg, parent, cf);
            let sub = if t.query.len() == 0 && t.collapsed.contains(g) {
                Seq::<RowV>::empty()
            } else {
                if begins_with(cg, cf) {
                    if cf.len() <= parent.len() {
                        assert(cg.take(cf.len() as int) == cg.take(parent.len() as int).take(cf.len() as int));
                        assert(begins_with(parent, cf));
                    }
                    assert(cf == cg);
                    assert(idx == i0);
                }
                lemma_max_comps(t.folders, t.folders.len() as int, idx);
                lemma_subtree_hides(t, cg, depth + 1, inh, i0);
                subtree(t, cg, depth + 1, inh)
            };
            assert(all == seq![row] + sub + rest);
            assert forall|i: int| 0 <= i < all.len() implies !strictly_inside(row_comps(#[trigger] all[i]), cf) by {
                if i == 0 {
                    assert(all[i] == row);
                } else if i < 1 + sub.len() {
                    assert(all[i] == sub[i - 1]);
                } else {
                    assert(all[i] == rest[i - 1 - sub.len()]);
                }
            }
        }
    }
}

proof fn lemma_doc_rows_hide(
    t: TreeInput,
    kids: Seq<(Seq<char>, usize)>,
    k: int,
    parent: Seq<Seq<char>>,
    depth: nat,
    anc: bool,
    cf: Seq<Seq<char>>,
)
    requires
        forall|j: int| 0 <= j < kids.len() ==> {
            let e = #[trigger] kids[j];
            e.1 < t.docs.len() && parent_comps(t.docs[e.1 as int].relative_path@) == parent
        },
        !begins_with(parent, cf),
    ensures
        forall|i: int| 0 <= i < doc_rows(t, kids, k, depth, anc).len() ==> !strictly_inside(
            row_comps(#[trigger] doc_rows(t, kids, k, depth, anc)[i]),
            cf,
        ),
    decreases kids.len() - k,
{
    if 0 <= k < kids.len() {
        lemma_doc_rows_hide(t, kids, k + 1, parent, depth, anc, cf);
        let idx = kids[k].1 as int;
        let rest = doc_rows(t, kids, k + 1, depth, anc);
        let all = doc_rows(t, kids, k, depth, anc);
        if idx < t.docs.len() {
            let d = t.docs[idx];
            if !(t.query.len() > 0 && !anc && !doc_matches(d, t.query)) {
                let row = RowV {
                    key: KeyV::Document(d.relative_path@),
                    depth,
                    document_index: Some(idx as usize),
                    label: row_label(d.relative_path@),
                };
                lemma_parent_prefix(components(d.relative_path@), parent);
                lemma_one_level_not_inside(components(d.relative_path@), parent, cf);
                assert(all == seq![row] + rest);
                assert forall|i: int| 0 <= i < all.len() implies !strictly_inside(row_comps(#[trigger] all[i]), cf) by {
                    if i > 0 {
                        assert(all[i] == rest[i - 1]);
                    }
                }
            }
        }
    }
}

/// Folding a folder hides everything inside it: while no filter is typed, no row of the
/// tree lies inside a folded folder (the folder's own row stays). The folders of an index
/// are strictly ordered by their components (see `folders_of`).
pub proof fn lemma_folded_folder_hides_contents(t: TreeInput, i0: int)
    requires
        t.docs.len() <= usize::MAX,
        t.query.len() == 0,
        0 <= i0 < t.folders.len(),
        t.collapsed.contains(t.folders[i0]@),
        components(t.folders[i0]@).len() > 0,
        forall|i: int, j: int|
            0 <= i < j < t.folders.len() ==> comps_lt(
                components(#[trigger] t.folders[i]@),
                components(#[trigger] t.folders[j]@),
            ),
    ensures
        forall|r: int| 0 <= r < subtree(t, seq![], 0, false).len() ==> !strictly_inside(
            row_comps(#[trigger] subtree(t, seq![], 0, false)[r]),
            components(t.folders[i0]@),
        ),
{
    assert forall|i: int, j: int|
        0 <= i < t.folders.len() && 0 <= j < t.folders.len() && components(#[trigger] t.folders[i]@)
            == components(#[trigger] t.folders[j]@) implies i == j by {
        if i < j {
            crate::order::lemma_comps_irreflexive(components(t.folders[i]@));
        } else if j < i {
            crate::order::lemma_comps_irreflexive(components(t.folders[j]@));
        }
    }
    lemma_subtree_hides(t, seq![], 0, false, i0);
}

// ---------------------------------------------------------------- ancestors are shown

/// The folder holding row `i` at `n` components is shown as a row before it.
pub open spec fn ancestor_row(rows: Seq<RowV>, i: int, n: int) -> bool {
    exists|j: int| 0 <= j < i && (#[trigger] rows[j]).key is Folder && row_comps(rows[j]) == row_comps(rows[i]).take(n)
}

/// Every row's folders deeper than `base` components are shown as folder rows before it.
pub open spec fn ancestors_shown(rows: Seq<RowV>, base: nat) -> bool {
    forall|i: int, n: int|
        0 <= i < rows.len() && base < n < row_comps(rows[i]).len() ==> #[trigger] ancestor_row(rows, i, n)
}

proof fn lemma_subtree_ancestors(t: TreeInput, parent: Seq<Seq<char>>, depth: nat, anc: bool)
    requires
        t.docs.len() <= usize::MAX,
    ensures
        ancestors_shown(subtree(t, parent, depth, anc), parent.len()),
    decreases tree_limit(t) - parent.len(), 1int, 0int,
{
    if parent.len() <= tree_limit(t) {
        let fk = keyed_sort(folder_kids(t.folders, parent, t.folders.len() as int));
        let dk = keyed_sort(doc_kids(t.docs, parent, t.docs.len() as int));
        lemma_folder_rows_ancestors(t, fk, 0, parent, depth, anc);
        lemma_doc_kids_in(t.docs, parent, t.docs.len() as int);
        let p = |e: (Seq<char>, usize)| e.1 < t.docs.len() && parent_comps(t.docs[e.1 as int].relative_path@) == parent;
        assert forall|j: int| 0 <= j < doc_kids(t.docs, parent, t.docs.len() as int).len() implies p(
            #[trigger] doc_kids(t.docs, parent, t.docs.len() as int)[j],
        ) by {}
        lemma_keyed_sort_keeps(doc_kids(t.docs, parent, t.docs.len() as int), p);
        lemma_doc_rows_one_level(t, dk, 0, parent, depth, anc);
        let a = folder_rows(t, fk, 0, parent, depth, anc);
        let b = doc_rows(t, dk, 0, depth, anc);
        let all = subtree(t, parent, depth, anc);
        assert(all == a + b);
        assert forall|i: int, n: int|
            0 <= i < all.len() && parent.len() < n < row_comps(all[i]).len() implies #[trigger] ancestor_row(all, i, n) by {
            if i < a.len() {
                assert(all[i] == a[i]);
                assert(ancestor_row(a, i, n));
                let j = choose|j: int| 0 <= j < i && (#[trigger] a[j]).key is Folder && row_comps(a[j]) == row_comps(a[i]).take(n);
                assert(all[j] == a[j]);
            } else {
                assert(all[i] == b[i - a.len()]);
            }
        }
    }
}

proof fn lemma_doc_rows_one_level(
    t: TreeInput,
    kids: Seq<(Seq<char>, usize)>,
    k: int,
    parent: Seq<Seq<char>>,
    depth: nat,
    anc: bool,
)
    requires
        forall|j: int| 0 <= j < kids.len() ==> {
            let e = #[trigger] kids[j];
            e.1 < t.docs.len() && parent_comps(t.docs[e.1 as int].relative_path@) == parent
        },
    ensures
        forall|i: int| 0 <= i < doc_rows(t, kids, k, depth, anc).len() ==> row_comps(
            #[trigger] doc_rows(t, kids, k, depth, anc)[i],
        ).len() <= parent.len() + 1,
    decreases kids.len() - k,
{
    if 0 <= k < kids.len() {
        lemma_doc_rows_one_level(t, kids, k + 1, parent, depth, anc);
        let idx = kids[k].1 as int;
        let rest = doc_rows(t, kids, k + 1, depth, anc);
        let all = doc_rows(t, kids, k, depth, anc);
        if idx < t.docs.len() {
            let d = t.docs[idx];
            if !(t.query.len() > 0 && !anc && !doc_matches(d, t.query)) {
                let row = RowV {
                    key: KeyV::Document(d.relative_path@),
                    depth,
                    document_index: Some(idx as usize),
                    label: row_label(d.relative_path@),
                };
                lemma_parent_prefix(components(d.relative_path@), parent);
                assert(all == seq![row] + rest);
                assert forall|i: int| 0 <= i < all.len() implies row_comps(#[trigger] all[i]).len() <= parent.len() + 1 by {
                    if i > 0 {
                        assert(all[i] == rest[i - 1]);
                    }
                }
            }
        }
    }
}

proof fn lemma_folder_rows_ancestors(
    t: TreeInput,
    kids: Seq<(Seq<char>, usize)>,
    k: int,
    parent: Seq<Seq<char>>,
    depth: nat,
    anc: bool,
)
    requires
        t.docs.len() <= usize::MAX,
    ensures
        ancestors_shown(folder_rows(t, kids, k, parent, depth, anc), parent.len()),
    decreases tree_limit(t) - parent.len(), 0int, kids.len() - k,
{
    if 0 <= k < kids.len() {
        let idx = kids[k].1 as int;
        let rest = folder_rows(t, kids, k + 1, parent, depth, anc);
        lemma_folder_rows_ancestors(t, kids, k + 1, parent, depth, anc);
        let all = folder_rows(t, kids, k, parent, depth, anc);
        if idx < t.folders.len() && is_child_folder(t.folders[idx]@, parent) {
            let g = t.folders[idx]@;
            let cg = components(g);
            let own = path_matches(g, t.query);
            let inh = anc || own;
            if !(t.query.len() > 0 && !inh && !folder_has_match(t.docs, t.folders, g, t.query)) {
                let row = RowV { key: KeyV::Folder(g), depth, document_index: None, label: row_label(g) };
                let sub = if t.query.len() == 0 && t.collapsed.contains(g) {
                    Seq::<RowV>::empty()
                } else {
                    lemma_max_comps(t.folders, t.folders.len() as int, idx);
                    lemma_tree_rows_inside(t, cg, depth + 1, inh);
                    lemma_subtree_ancestors(t, cg, depth + 1, inh);
                    subtree(t, cg, depth + 1, inh)
                };
                assert(all == seq![row] + sub + rest);
                assert(row_comps(row) == cg);
                assert forall|i: int, n: int|
                    0 <= i < all.len() && parent.len() < n < row_comps(all[i]).len() implies #[trigger] ancestor_row(all, i, n) by {
                    if i == 0 {
                        assert(all[i] == row);
                    } else if i < 1 + sub.len() {
                        assert(all[i] == sub[i - 1]);
                        let c = row_comps(sub[i - 1]);
                        assert(begins_with(c, cg));
                        if n == cg.len() {
                            assert(all[0] == row);
                            assert(c.take(n) == cg);
                        } else {
                            assert(ancestor_row(sub, i - 1, n));
                            let j = choose|j: int|
                                0 <= j < i - 1 && (#[trigger] sub[j]).key is Folder && row_comps(sub[j]) == row_comps(sub[i - 1]).take(n);
                            assert(all[j + 1] == sub[j]);
                        }
                    } else {
                        let i2 = i - 1 - sub.len();
                        assert(all[i] == rest[i2]);
                        assert(ancestor_row(rest, i2, n));
                        let j = choose|j: int| 0 <= j < i2 && (#[trigger] rest[j]).key is Folder && row_comps(rest[j]) == row_comps(rest[i2]).take(n);
                        assert(all[j + 1 + sub.len()] == rest[j]);
                    }
                }
            }
        }
    }
}

/// Whatever the filter and the folding, a row is never shown without its folders: every
/// folder a shown row lies in is shown before it (the filter keeps the ancestors of what
/// it matches).
pub proof fn lemma_rows_follow_their_folders(t: TreeInput)
    requires
        t.docs.len() <= usize::MAX,
    ensures
        ancestors_shown(subtree(t, seq![], 0, false), 0),
{
    lemma_subtree_ancestors(t, seq![], 0, false);
}

/// Two tree inputs that differ at most in whether the folder `f` is folded.
pub open spec fn differ_at_most_at(t0: TreeInput, t1: TreeInput, f: Seq<char>) -> bool {
    &&& t1.docs == t0.docs
    &&& t1.folders == t0.folders
    &&& t1.query == t0.query
    &&& forall|g: Seq<char>| g != f ==> (#[trigger] t1.collapsed.contains(g) == t0.collapsed.contains(g))
}

proof fn lemma_doc_rows_are_documents(t: TreeInput, kids: Seq<(Seq<char>, usize)>, k: int, depth: nat, anc: bool)
    ensures
        forall|i: int|
            0 <= i < doc_rows(t, kids, k, depth, anc).len() ==> (#[trigger] doc_rows(t, kids, k, depth, anc)[i]).key is Document,
    decreases kids.len() - k,
{
    if 0 <= k < kids.len() {
        lemma_doc_rows_are_documents(t, kids, k + 1, depth, anc);
        let rest = doc_rows(t, kids, k + 1, depth, anc);
        let all = doc_rows(t, kids, k, depth, anc);
        assert forall|i: int| 0 <= i < all.len() implies (#[trigger] all[i]).key is Document by {
            if all.len() > rest.len() && i > 0 {
                assert(all[i] == rest[i - 1]);
            }
        }
    }
}

/// Folding or unfolding the folder `f` keeps the row of `f` in the tree.
proof fn lemma_subtree_keeps_folder(
    t0: TreeInput,
    t1: TreeInput,
    f: Seq<char>,
    parent: Seq<Seq<char>>,
    depth: nat,
    anc: bool,
    i: int,
)
    requires
        differ_at_most_at(t0, t1, f),
        0 <= i < subtree(t0, parent, depth, anc).len(),
        subtree(t0, parent, depth, anc)[i].key == KeyV::Folder(f),
    ensures
        exists|j: int|
            0 <= j < subtree(t1, parent, depth, anc).len() && (#[trigger] subtree(t1, parent, depth, anc)[j]).key
                == KeyV::Folder(f),
    decreases tree_limit(t0) - parent.len(), 1int, 0int,
{
    if parent.len() <= tree_limit(t0) {
        let fk = keyed_sort(folder_kids(t0.folders, parent, t0.folders.len() as int));
        let dk = keyed_sort(doc_kids(t0.docs, parent, t0.docs.len() as int));
        let f0 = folder_rows(t0, fk, 0, parent, depth, anc);
        let d0 = doc_rows(t0, dk, 0, depth, anc);
        let f1 = folder_rows(t1, fk, 0, parent, depth, anc);
        let d1 = doc_rows(t1, dk, 0, depth, anc);
        assert(subtree(t0, parent, depth, anc) == f0 + d0);
        assert(subtree(t1, parent, depth, anc) == f1 + d1);
        if i < f0.len() {
            assert(f0[i] == subtree(t0, parent, depth, anc)[i]);
            lemma_folder_rows_keep_folder(t0, t1, f, fk, 0, parent, depth, anc, i);
            let j = choose|j: int| 0 <= j < f1.len() && (#[trigger] f1[j]).key == KeyV::Folder(f);
            assert(subtree(t1, parent, depth, anc)[j] == f1[j]);
        } else {
            lemma_doc_rows_are_documents(t0, dk, 0, depth, anc);
            assert(subtree(t0, parent, depth, anc)[i] == d0[i - f0.len()]);
        }
    }
}

proof fn lemma_folder_rows_keep_folder(
    t0: TreeInput,
    t1: TreeInput,
    f: Seq<char>,
    kids: Seq<(Seq<char>, usize)>,
    k: int,
    parent: Seq<Seq<char>>,
    depth: nat,
    anc: bool,
    i: int,
)
    requires
        differ_at_most_at(t0, t1, f),
        0 <= i < folder_rows(t0, kids, k, parent, depth, anc).len(),
        folder_rows(t0, kids, k, parent, depth, anc)[i].key == KeyV::Folder(f),
    ensures
        exists|j: int|
            0 <= j < folder_rows(t1, kids, k, parent, depth, anc).len() && (#[trigger] folder_rows(
                t1,
                kids,
                k,
                parent,
                depth,
                anc,
            )[j]).key == KeyV::Folder(f),
    decreases tree_limit(t0) - parent.len(), 0int, kids.len() - k,
{
    let r0 = folder_rows(t0, kids, k, parent, depth, anc);
    let r1 = folder_rows(t1, kids, k, parent, depth, anc);
    if 0 <= k < kids.len() {
        let idx = kids[k].1 as int;
        let rest0 = folder_rows(t0, kids, k + 1, parent, depth, anc);
        let rest1 = folder_rows(t1, kids, k + 1, parent, depth, anc);
        if idx >= t0.folders.len() || !is_child_folder(t0.folders[idx]@, parent) {
            lemma_folder_rows_keep_folder(t0, t1, f, kids, k + 1, parent, depth, anc, i);
        } else {
            let g = t0.folders[idx]@;
            let inh = anc || path_matches(g, t0.query);
            if t0.query.len() > 0 && !inh && !folder_has_match(t0.docs, t0.folders, g, t0.query) {
                lemma_folder_rows_keep_folder(t0, t1, f, kids, k + 1, parent, depth, anc, i);
            } else {
                let row = RowV { key: KeyV::Folder(g), depth, document_index: None, label: row_label(g) };
                lemma_max_comps(t0.folders, t0.folders.len() as int, idx);
                let sub0 = if t0.query.len() == 0 && t0.collapsed.contains(g) {
                    seq![]
                } else {
                    subtree(t0, components(g), depth + 1, inh)
                };
                let sub1 = if t1.query.len() == 0 && t1.collapsed.contains(g) {
                    seq![]
                } else {
                    subtree(t1, components(g), depth + 1, inh)
                };
                assert(r0 == seq![row] + sub0 + rest0);
                assert(r1 == seq![row] + sub1 + rest1);
                if g == f {
                    assert(r1[0] == row);
                } else if i == 0 {
                    assert(r0[0] == row);
                } else if i < 1 + sub0.len() {
                    assert(t1.collapsed.contains(g) == t0.collapsed.contains(g));
                    assert(r0[i] == sub0[i - 1]);
                    lemma_subtree_keeps_folder(t0, t1, f, components(g), depth + 1, inh, i - 1);
                    let j = choose|j: int| 0 <= j < sub1.len() && (#[trigger] sub1[j]).key == KeyV::Folder(f);
                    assert(r1[j + 1] == sub1[j]);
                } else {
                    assert(r0[i] == rest0[i - 1 - sub0.len()]);
                    lemma_folder_rows_keep_folder(t0, t1, f, kids, k + 1, parent, depth, anc, i - 1 - sub0.len());
                    let j = choose|j: int| 0 <= j < rest1.len() && (#[trigger] rest1[j]).key == KeyV::Folder(f);
                    assert(r1[j + 1 + sub1.len()] == rest1[j]);
                }
            }
        }
    }
}

proof fn lemma_position_found(rows: Seq<RowV>, k: KeyV, i: int, j: int)
    requires
        0 <= i <= j < rows.len(),
        rows[j].key == k,
    ensures
        position_from(rows, k, i) matches Some(p) && i <= p < rows.len() && rows[p].key == k,
    decreases j - i,
{
    if rows[i].key != k {
        lemma_position_found(rows, k, i + 1, j);
    }
}

/// Toggling a folder and toggling it again gives back the folding and the rows: the
/// first toggle flips whether the selected folder is folded and keeps that folder
/// selected, and the second flips it back, leaving every folder folded as before and the
/// rows as they were.
pub proof fn lemma_toggle_twice_restores(a0: App, a1: App, a2: App, r1: bool, r2: bool, f: Seq<char>)
    requires
        selected_key_of(a0.rows_v(), a0.selected as int) == Some(KeyV::Folder(f)),
        a0.rows_v() == a0.tree_rows(),
        toggle_effect(&a0, &a1, r1),
        toggle_effect(&a1, &a2, r2),
    ensures
        r1 && r2,
        selected_key_of(a1.rows_v(), a1.selected as int) == Some(KeyV::Folder(f)),
        strings_view(a1.collapsed@).contains(f) == !strings_view(a0.collapsed@).contains(f),
        forall|x: Seq<char>| #[trigger] strings_view(a2.collapsed@).contains(x) == strings_view(a0.collapsed@).contains(x),
        a2.rows_v() == a0.rows_v(),
{
    let c0 = strings_view(a0.collapsed@);
    let c1 = strings_view(a1.collapsed@);
    let c2 = strings_view(a2.collapsed@);
    assert(c1.contains(f) == !c0.contains(f));
    let t0 = a0.tree_input(query_of(a0.filter@));
    let t1 = a1.tree_input(query_of(a1.filter@));
    assert forall|g: Seq<char>| g != f implies (#[trigger] t1.collapsed.contains(g) == t0.collapsed.contains(g)) by {
        assert(c1.contains(g) == c0.contains(g));
    }
    let i0 = a0.selected as int;
    assert(a0.rows_v()[i0].key == KeyV::Folder(f));
    lemma_subtree_keeps_folder(t0, t1, f, seq![], 0, false, i0);
    let rows1 = a1.rows_v();
    let j = choose|j: int| 0 <= j < rows1.len() && (#[trigger] rows1[j]).key == KeyV::Folder(f);
    lemma_position_found(rows1, KeyV::Folder(f), 0, j);
    assert(selected_key_of(a1.rows_v(), a1.selected as int) == Some(KeyV::Folder(f)));
    assert forall|x: Seq<char>| #[trigger] c2.contains(x) == c0.contains(x) by {
        assert(c1.contains(x) == if x == f { !c0.contains(f) } else { c0.contains(x) });
    }
    assert(c2.to_set() =~= c0.to_set());
    assert(a2.tree_input(query_of(a2.filter@)) == a0.tree_input(query_of(a0.filter@)));
}

/// The filter finds a document by its path as well as by its title: a query matches
/// whenever it is empty, occurs in the lower-cased relative path, or occurs in the
/// lower-cased title, and only then.
pub proof fn lemma_documents_match_by_path_or_title(d: Document, q: Seq<char>)
    ensures
        q.len() == 0 ==> doc_matches(d, q),
        contains_seq(lowercased(d.relative_path@), q) ==> doc_matches(d, q),
        contains_seq(lowercased(d.title@), q) ==> doc_matches(d, q),
        doc_matches(d, q) ==> q.len() == 0 || contains_seq(lowercased(d.relative_path@), q) || contains_seq(
            lowercased(d.title@),
            q,
        ),
{
}

} // verus!
