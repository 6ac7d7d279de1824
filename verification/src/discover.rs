//! The index of the Markdown documents below a root: documents in path order, the folders
//! that hold them, and lookups by route.

use vstd::prelude::*;
use vstd::multiset::Multiset;
use crate::calls::{lossy_decoded, lowercased, percent_decode_lossy, percent_decoded, to_lowercase};
use vstd::string::StringSliceAdditionalSpecFns;
use crate::document::{route_of, Document};
use crate::order::{char_lists, comps_less, comps_lt, lemma_comps_asymmetric, lemma_comps_irreflexive,
    lemma_comps_total, lemma_comps_transitive, lemma_lex_asymmetric, lemma_lex_irreflexive,
    lemma_lex_total, lemma_lex_transitive, lex_less, lex_lt};
use crate::paths::{component_ranges, components, file_name, ranges_text};
use crate::text::{ascii_lower, chars_of, join_with, lower_ascii_range, same_chars, string_of};

verus! {

/// Which files a scan visits.
#[derive(Clone, Copy, Debug, PartialEq, Eq, Structural)]
pub struct ScanOptions {
    /// Visit hidden files and folders.
    pub include_hidden: bool,
    /// Skip what `.gitignore` files exclude.
    pub respect_gitignore: bool,
}

impl Default for ScanOptions {
    fn default() -> (o: ScanOptions)
        ensures
            o == (ScanOptions { include_hidden: false, respect_gitignore: true }),
    {
        ScanOptions { include_hidden: false, respect_gitignore: true }
    }
}

/// The Markdown documents below `root` and the folders that hold them.
#[derive(Clone, Debug)]
pub struct DocumentIndex {
    pub root: String,
    /// Sorted by their lower-cased relative paths.
    pub documents: Vec<Document>,
    /// The root (the empty path) and every folder on the way to a document, in path order.
    pub folders: Vec<String>,
}

// ---------------------------------------------------------------- document order

/// The key documents are sorted by: the lower-cased relative path.
pub open spec fn doc_key(d: Document) -> Seq<char> {
    lowercased(d.relative_path@)
}

/// The number of leading documents of `s` whose key sorts before `k`.
pub open spec fn leading_less(s: Seq<Document>, k: Seq<char>) -> nat
    decreases s.len(),
{
    if s.len() > 0 && lex_lt(doc_key(s[0]), k) {
        1 + leading_less(s.drop_first(), k)
    } else {
        0
    }
}

/// `s` sorted by key, stably: each document goes in front of the later ones whose key is
/// not smaller.
pub open spec fn by_key(s: Seq<Document>) -> Seq<Document>
    decreases s.len(),
{
    if s.len() == 0 {
        seq![]
    } else {
        let t = by_key(s.drop_first());
        t.insert(leading_less(t, doc_key(s[0])) as int, s[0])
    }
}

pub open spec fn sorted_by_key(t: Seq<Document>) -> bool {
    forall|i: int, j: int| 0 <= i < j < t.len() ==> !lex_lt(doc_key(#[trigger] t[j]), doc_key(#[trigger] t[i]))
}

proof fn lemma_leading_less(t: Seq<Document>, k: Seq<char>)
    requires
        sorted_by_key(t),
    ensures
        leading_less(t, k) <= t.len(),
        forall|i: int| 0 <= i < leading_less(t, k) ==> lex_lt(doc_key(#[trigger] t[i]), k),
        forall|i: int| leading_less(t, k) <= i < t.len() ==> !lex_lt(doc_key(#[trigger] t[i]), k),
    decreases t.len(),
{
    if t.len() > 0 {
        let r = t.drop_first();
        assert forall|i: int, j: int| 0 <= i < j < r.len() implies !lex_lt(doc_key(#[trigger] r[j]), doc_key(#[trigger] r[i])) by {
            assert(r[i] == t[i + 1] && r[j] == t[j + 1]);
        }
        lemma_leading_less(r, k);
        if lex_lt(doc_key(t[0]), k) {
            assert forall|i: int| 0 <= i < leading_less(t, k) implies lex_lt(doc_key(#[trigger] t[i]), k) by {
                if i > 0 {
                    assert(t[i] == r[i - 1]);
                }
            }
            assert forall|i: int| leading_less(t, k) <= i < t.len() implies !lex_lt(doc_key(#[trigger] t[i]), k) by {
                assert(t[i] == r[i - 1]);
            }
        } else {
            assert forall|i: int| 0 <= i < t.len() implies !lex_lt(doc_key(#[trigger] t[i]), k) by {
                if i > 0 {
                    assert(!lex_lt(doc_key(t[i]), doc_key(t[0])));
                    lemma_lex_total(doc_key(t[i]), doc_key(t[0]));
                    if lex_lt(doc_key(t[i]), k) {
                        lemma_lex_total(doc_key(t[0]), k);
                        if doc_key(t[0]) != k {
                            lemma_lex_transitive(doc_key(t[0]), doc_key(t[i]), k);
                        }
                    }
                }
            }
        }
    }
}

/// Sorting keeps the documents and puts them in key order.
pub proof fn lemma_by_key(s: Seq<Document>)
    ensures
        sorted_by_key(by_key(s)),
        by_key(s).to_multiset() == s.to_multiset(),
        by_key(s).len() == s.len(),
    decreases s.len(),
{
    if s.len() > 0 {
        let r = s.drop_first();
        lemma_by_key(r);
        let t = by_key(r);
        let x = s[0];
        let k = doc_key(x);
        lemma_leading_less(t, k);
        let p = leading_less(t, k) as int;
        let u = t.insert(p, x);
        assert forall|i: int, j: int| 0 <= i < j < u.len() implies !lex_lt(doc_key(#[trigger] u[j]), doc_key(#[trigger] u[i])) by {
            if j < p {
                assert(u[i] == t[i] && u[j] == t[j]);
            } else if j == p {
                assert(u[i] == t[i]);
                assert(lex_lt(doc_key(t[i]), k));
                lemma_lex_asymmetric(doc_key(t[i]), k);
            } else if i == p {
                assert(u[j] == t[j - 1]);
            } else if i < p {
                assert(u[i] == t[i] && u[j] == t[j - 1]);
            } else {
                assert(u[i] == t[i - 1] && u[j] == t[j - 1]);
            }
        }
        assert(s =~= r.insert(0, x));
        vstd::seq_lib::to_multiset_insert(r, 0, x);
        vstd::seq_lib::to_multiset_insert(t, p, x);
    } else {
        assert(s =~= Seq::<Document>::empty());
        assert(by_key(s) =~= Seq::<Document>::empty());
    }
}

/// `docs` sorted by their lower-cased relative paths, stably (see `by_key`).
pub fn sort_documents(docs: Vec<Document>) -> (r: Vec<Document>)
    ensures
        r@ == by_key(docs@),
{
    let ghost all = docs@;
    let mut input = docs;
    let mut out: Vec<Document> = Vec::new();
    let mut keys: Vec<Vec<char>> = Vec::new();
    assert(all.skip(all.len() as int) =~= Seq::<Document>::empty());
    while input.len() > 0
        invariant
            input@ == all.take(input@.len() as int),
            input@.len() <= all.len(),
            out@ == by_key(all.skip(input@.len() as int)),
            keys@.len() == out@.len(),
            forall|i: int| 0 <= i < keys@.len() ==> (#[trigger] keys@[i])@ == doc_key(out@[i]),
        decreases input@.len(),
    {
        let n = input.len();
        let d = input.pop().unwrap();
        let ghost rest = all.skip(n - 1);
        assert(all.take(n - 1) =~= input@);
        assert(rest[0] == d);
        assert(rest.drop_first() =~= all.skip(n as int));
        let lowered = to_lowercase(d.relative_path.as_str());
        let k = chars_of(lowered.as_str());
        let mut j: usize = 0;
        assert(out@.skip(0) =~= out@);
        while j < out.len() && lex_less(keys[j].as_slice(), k.as_slice())
            invariant
                keys@.len() == out@.len(),
                forall|i: int| 0 <= i < keys@.len() ==> (#[trigger] keys@[i])@ == doc_key(out@[i]),
                j <= out@.len(),
                leading_less(out@, k@) == j + leading_less(out@.skip(j as int), k@),
            decreases out@.len() - j,
        {
            assert(out@.skip(j as int)[0] == out@[j as int]);
            assert(out@.skip(j as int).drop_first() =~= out@.skip(j + 1));
            j = j + 1;
        }
        proof {
            if j < out@.len() {
                assert(out@.skip(j as int)[0] == out@[j as int]);
            }
        }
        let ghost before = out@;
        out.insert(j, d);
        keys.insert(j, k);
        proof {
            assert(out@ == before.insert(j as int, rest[0]));
            assert forall|i: int| 0 <= i < keys@.len() implies (#[trigger] keys@[i])@ == doc_key(out@[i]) by {
                if i < j {
                } else if i == j {
                } else {
                }
            }
        }
    }
    assert(all.skip(0) =~= all);
    out
}

// ---------------------------------------------------------------- folders

/// The components of the folder that holds a file at `rel`.
pub open spec fn parent_comps(rel: Seq<char>) -> Seq<Seq<char>> {
    let c = components(rel);
    if c.len() > 0 {
        c.drop_last()
    } else {
        c
    }
}

/// A folder of the index: the root, or a folder on the way to one of `docs`.
pub open spec fn is_folder_of(docs: Seq<Document>, f: Seq<char>) -> bool {
    f.len() == 0 || exists|i: int, k: int|
        0 <= i < docs.len() && 1 <= k <= parent_comps(docs[i].relative_path@).len() && f == join_with(
            #[trigger] parent_comps(docs[i].relative_path@).take(k),
            "/"@,
        )
}

pub open spec fn folder_keys_ok(folders: Seq<String>, keys: Seq<Vec<Vec<char>>>) -> bool {
    &&& folders.len() == keys.len()
    &&& forall|i: int| 0 <= i < keys.len() ==> char_lists((#[trigger] keys[i])@) == components(folders[i]@)
    &&& forall|i: int, j: int| 0 <= i < j < keys.len() ==> comps_lt(
        char_lists((#[trigger] keys[i])@),
        char_lists((#[trigger] keys[j])@),
    )
}

/// The components of `s`, each as characters.
pub fn comps_of_chars(s: &[char]) -> (r: Vec<Vec<char>>)
    ensures
        char_lists(r@) == components(s@),
{
    let ranges = component_ranges(s);
    let mut r: Vec<Vec<char>> = Vec::new();
    let mut k: usize = 0;
    while k < ranges.len()
        invariant
            k <= ranges@.len(),
            forall|i: int| 0 <= i < ranges@.len() ==> (#[trigger] ranges@[i]).0 <= ranges@[i].1 <= s@.len(),
            char_lists(r@) == ranges_text(s@, ranges@).take(k as int),
        decreases ranges@.len() - k,
    {
        let (a, b) = ranges[k];
        let piece = string_of(s, a, b);
        let c = chars_of(piece.as_str());
        let ghost before = char_lists(r@);
        r.push(c);
        assert(char_lists(r@) =~= before.push(s@.subrange(a as int, b as int)));
        assert(ranges_text(s@, ranges@).take(k + 1) =~= ranges_text(s@, ranges@).take(k as int).push(
            s@.subrange(a as int, b as int),
        ));
        k = k + 1;
    }
    assert(ranges_text(s@, ranges@).take(ranges@.len() as int) =~= ranges_text(s@, ranges@));
    r
}

pub fn same_comps(a: &Vec<Vec<char>>, b: &Vec<Vec<char>>) -> (r: bool)
    ensures
        r == (char_lists(a@) == char_lists(b@)),
{
    if a.len() != b.len() {
        assert(char_lists(a@).len() != char_lists(b@).len());
        return false;
    }
    let mut i: usize = 0;
    while i < a.len()
        invariant
            a@.len() == b@.len(),
            i <= a@.len(),
            forall|j: int| 0 <= j < i ==> (#[trigger] a@[j])@ == b@[j]@,
        decreases a@.len() - i,
    {
        if !same_chars(a[i].as_slice(), b[i].as_slice()) {
            assert(char_lists(a@)[i as int] != char_lists(b@)[i as int]);
            return false;
        }
        i = i + 1;
    }
    assert(char_lists(a@) =~= char_lists(b@));
    true
}

/// Adds folder `f` (whose components are `key`) in path order, unless a folder with the
/// same components is there already.
fn insert_folder(folders: &mut Vec<String>, keys: &mut Vec<Vec<Vec<char>>>, f: String, key: Vec<Vec<char>>)
    requires
        folder_keys_ok(old(folders)@, old(keys)@),
        char_lists(key@) == components(f@),
    ensures
        folder_keys_ok(final(folders)@, final(keys)@),
        forall|i: int| 0 <= i < old(folders)@.len() ==> final(folders)@.contains(#[trigger] old(folders)@[i]),
        forall|i: int| 0 <= i < final(folders)@.len() ==> old(folders)@.contains(#[trigger] final(folders)@[i])
            || final(folders)@[i] == f,
        exists|i: int| 0 <= i < final(folders)@.len() && components(#[trigger] final(folders)@[i]@) == components(f@),
{
    let ghost kv = char_lists(key@);
    let mut j: usize = 0;
    while j < keys.len() && comps_less(&keys[j], &key)
        invariant
            folder_keys_ok(folders@, keys@),
            kv == char_lists(key@),
            j <= keys@.len(),
            forall|i: int| 0 <= i < j ==> comps_lt(char_lists((#[trigger] keys@[i])@), kv),
        decreases keys@.len() - j,
    {
        j = j + 1;
    }
    if j < keys.len() && same_comps(&keys[j], &key) {
        assert(folders@.contains(folders@[j as int]));
        return;
    }
    proof {
        if j < keys@.len() {
            lemma_comps_total(char_lists(keys@[j as int]@), kv);
        }
    }
    let ghost old_f = folders@;
    let ghost old_k = keys@;
    folders.insert(j, f);
    keys.insert(j, key);
    proof {
        assert(folders@ == old_f.insert(j as int, f));
        assert(keys@ == old_k.insert(j as int, key));
        assert forall|i: int| 0 <= i < keys@.len() implies char_lists((#[trigger] keys@[i])@) == components(folders@[i]@) by {
            if i < j {
                assert(keys@[i] == old_k[i] && folders@[i] == old_f[i]);
            } else if i > j {
                assert(keys@[i] == old_k[i - 1] && folders@[i] == old_f[i - 1]);
            }
        }
        assert forall|a: int, b: int| 0 <= a < b < keys@.len() implies comps_lt(
            char_lists((#[trigger] keys@[a])@),
            char_lists((#[trigger] keys@[b])@),
        ) by {
            if b < j {
                assert(keys@[a] == old_k[a] && keys@[b] == old_k[b]);
            } else if b == j {
                assert(keys@[a] == old_k[a]);
            } else if a == j {
                assert(keys@[b] == old_k[b - 1]);
                if b - 1 > j {
                    assert(comps_lt(char_lists(old_k[j as int]@), char_lists(old_k[b - 1]@)));
                    lemma_comps_transitive(kv, char_lists(old_k[j as int]@), char_lists(old_k[b - 1]@));
                }
            } else if a < j {
                assert(keys@[a] == old_k[a] && keys@[b] == old_k[b - 1]);
            } else {
                assert(keys@[a] == old_k[a - 1] && keys@[b] == old_k[b - 1]);
            }
        }
        assert forall|i: int| 0 <= i < old_f.len() implies folders@.contains(#[trigger] old_f[i]) by {
            if i < j {
                assert(folders@[i] == old_f[i]);
            } else {
                assert(folders@[i + 1] == old_f[i]);
            }
        }
        assert forall|i: int| 0 <= i < folders@.len() implies old_f.contains(#[trigger] folders@[i]) || folders@[i] == f by {
            if i < j {
                assert(folders@[i] == old_f[i]);
            } else if i > j {
                assert(folders@[i] == old_f[i - 1]);
            }
        }
        assert(components(folders@[j as int]@) == components(f@));
    }
}

/// Some folder of `folders` has the components `c`.
pub open spec fn has_folder(folders: Seq<String>, c: Seq<Seq<char>>) -> bool {
    exists|j: int| 0 <= j < folders.len() && components(#[trigger] folders[j]@) == c
}

proof fn lemma_has_folder_kept(before: Seq<String>, after: Seq<String>, c: Seq<Seq<char>>)
    requires
        forall|i: int| 0 <= i < before.len() ==> after.contains(#[trigger] before[i]),
        has_folder(before, c),
    ensures
        has_folder(after, c),
{
    let j = choose|j: int| 0 <= j < before.len() && components(#[trigger] before[j]@) == c;
    assert(after.contains(before[j]));
    let k = choose|k: int| 0 <= k < after.len() && after[k] == before[j];
    assert(components(after[k]@) == c);
}

/// The folder list of an index over `docs`: every folder belongs to `docs`, every folder
/// of `docs` is there (as a path with the same components), and the folders are in
/// strictly increasing path order.
pub open spec fn folders_of(docs: Seq<Document>, folders: Seq<String>) -> bool {
    &&& forall|i: int| 0 <= i < folders.len() ==> is_folder_of(docs, #[trigger] folders[i]@)
    &&& forall|f: Seq<char>| is_folder_of(docs, f) ==> has_folder(folders, components(f))
    &&& forall|i: int, j: int| 0 <= i < j < folders.len() ==> comps_lt(
        components(#[trigger] folders[i]@),
        components(#[trigger] folders[j]@),
    )
}

pub open spec fn pc_of(docs: Seq<Document>, i: int) -> Seq<Seq<char>> {
    parent_comps(docs[i].relative_path@)
}

/// The folders on the way to each document, with the root, in path order (see
/// `folders_of`).
fn collect_folders(docs: &Vec<Document>) -> (r: Vec<String>)
    ensures
        folders_of(docs@, r@),
{
    let mut folders: Vec<String> = Vec::new();
    let mut keys: Vec<Vec<Vec<char>>> = Vec::new();
    let root = String::new();
    let root_chars = chars_of(root.as_str());
    let root_key = comps_of_chars(root_chars.as_slice());
    proof {
        assert(folder_keys_ok(folders@, keys@));
    }
    insert_folder(&mut folders, &mut keys, root, root_key);
    proof {
        assert forall|j: int| 0 <= j < folders@.len() implies is_folder_of(docs@, #[trigger] folders@[j]@) by {
            assert(Seq::<String>::empty().contains(folders@[j]) == false);
        }
    }
    let mut i: usize = 0;
    while i < docs.len()
        invariant
            i <= docs@.len(),
            folder_keys_ok(folders@, keys@),
            has_folder(folders@, components(Seq::<char>::empty())),
            forall|j: int| 0 <= j < folders@.len() ==> is_folder_of(docs@, #[trigger] folders@[j]@),
            forall|i2: int, k2: int|
                0 <= i2 < i && 1 <= k2 <= pc_of(docs@, i2).len() ==> has_folder(
                    folders@,
                    components(join_with(#[trigger] pc_of(docs@, i2).take(k2), "/"@)),
                ),
        decreases docs@.len() - i,
    {
        let rel = chars_of(docs[i].relative_path.as_str());
        let ranges = component_ranges(rel.as_slice());
        let ghost pc = pc_of(docs@, i as int);
        let n = ranges.len();
        let pn = if n > 0 { n - 1 } else { 0 };
        proof {
            assert(ranges_text(rel@, ranges@) == components(rel@));
            assert(pc.len() == pn);
            assert forall|k: int| 0 <= k < pn implies pc[k] == rel@.subrange((#[trigger] ranges@[k]).0 as int, ranges@[k].1 as int) by {
                assert(pc[k] == components(rel@)[k]);
            }
        }
        let mut cur = String::new();
        let mut k: usize = 0;
        assert(pc.take(0) =~= Seq::<Seq<char>>::empty());
        while k < pn
            invariant
                i < docs@.len(),
                pc == pc_of(docs@, i as int),
                pn == pc.len(),
                n == ranges@.len(),
                pn <= n,
                forall|m: int| 0 <= m < ranges@.len() ==> (#[trigger] ranges@[m]).0 <= ranges@[m].1 <= rel@.len(),
                forall|m: int| 0 <= m < pn ==> pc[m] == rel@.subrange((#[trigger] ranges@[m]).0 as int, ranges@[m].1 as int),
                k <= pn,
                cur@ == join_with(pc.take(k as int), "/"@),
                folder_keys_ok(folders@, keys@),
                has_folder(folders@, components(Seq::<char>::empty())),
                forall|j: int| 0 <= j < folders@.len() ==> is_folder_of(docs@, #[trigger] folders@[j]@),
                forall|i2: int, k2: int|
                    0 <= i2 < i && 1 <= k2 <= pc_of(docs@, i2).len() ==> has_folder(
                        folders@,
                        components(join_with(#[trigger] pc_of(docs@, i2).take(k2), "/"@)),
                    ),
                forall|k2: int|
                    1 <= k2 <= k ==> has_folder(folders@, components(join_with(#[trigger] pc.take(k2), "/"@))),
            decreases pn - k,
        {
            let (a, b) = ranges[k];
            proof {
                crate::text::lemma_join_step(pc, "/"@, k as int);
                reveal_strlit("/");
            }
            if k > 0 {
                cur.append("/");
            }
            let piece = string_of(rel.as_slice(), a, b);
            cur.append(piece.as_str());
            assert(cur@ =~= join_with(pc.take(k + 1), "/"@));
            let f = String::from_str(cur.as_str());
            let f_chars = chars_of(f.as_str());
            let f_key = comps_of_chars(f_chars.as_slice());
            let ghost before = folders@;
            proof {
                assert(is_folder_of(docs@, f@)) by {
                    assert(1 <= k + 1 <= pc_of(docs@, i as int).len());
                    assert(f@ == join_with(parent_comps(docs@[i as int].relative_path@).take(k + 1), "/"@));
                }
            }
            insert_folder(&mut folders, &mut keys, f, f_key);
            proof {
                assert forall|j: int| 0 <= j < folders@.len() implies is_folder_of(docs@, #[trigger] folders@[j]@) by {
                    if before.contains(folders@[j]) {
                        let m = choose|m: int| 0 <= m < before.len() && before[m] == folders@[j];
                        assert(is_folder_of(docs@, before[m]@));
                    }
                }
                lemma_has_folder_kept(before, folders@, components(Seq::<char>::empty()));
                assert forall|i2: int, k2: int|
                    0 <= i2 < i && 1 <= k2 <= pc_of(docs@, i2).len() implies has_folder(
                        folders@,
                        components(join_with(#[trigger] pc_of(docs@, i2).take(k2), "/"@)),
                    ) by {
                    lemma_has_folder_kept(before, folders@, components(join_with(pc_of(docs@, i2).take(k2), "/"@)));
                }
                assert forall|k2: int|
                    1 <= k2 <= k + 1 implies has_folder(folders@, components(join_with(#[trigger] pc.take(k2), "/"@))) by {
                    if k2 <= k {
                        lemma_has_folder_kept(before, folders@, components(join_with(pc.take(k2), "/"@)));
                    } else {
                        let j = choose|j: int| 0 <= j < folders@.len() && components(#[trigger] folders@[j]@) == components(cur@);
                        assert(components(folders@[j]@) == components(join_with(pc.take(k2), "/"@)));
                    }
                }
            }
            k = k + 1;
        }
        i = i + 1;
    }
    proof {
        assert forall|f: Seq<char>| is_folder_of(docs@, f) implies has_folder(folders@, components(f)) by {
            if f.len() == 0 {
                assert(f =~= Seq::<char>::empty());
            } else {
                let (i2, k2) = choose|i2: int, k2: int|
                    0 <= i2 < docs@.len() && 1 <= k2 <= parent_comps(docs@[i2].relative_path@).len() && f
                        == join_with(#[trigger] parent_comps(docs@[i2].relative_path@).take(k2), "/"@);
                assert(pc_of(docs@, i2).take(k2) == parent_comps(docs@[i2].relative_path@).take(k2));
            }
        }
        assert forall|a: int, b: int| 0 <= a < b < folders@.len() implies comps_lt(
            components(#[trigger] folders@[a]@),
            components(#[trigger] folders@[b]@),
        ) by {
            assert(char_lists(keys@[a]@) == components(folders@[a]@));
            assert(char_lists(keys@[b]@) == components(folders@[b]@));
        }
    }
    folders
}

impl DocumentIndex {
    /// The index of `documents` found below `root`: the documents sorted by their
    /// lower-cased relative paths (stably), and the folders that hold them (see
    /// `folders_of`).
    pub fn from_documents(root: String, documents: Vec<Document>) -> (r: DocumentIndex)
        ensures
            r.root@ == root@,
            r.documents@ == by_key(documents@),
            folders_of(r.documents@, r.folders@),
            normal_paths(documents@) ==> normal_paths(r.documents@),
    {
        proof {
            if normal_paths(documents@) {
                lemma_by_key_normal(documents@);
            }
        }
        let documents = sort_documents(documents);
        let folders = collect_folders(&documents);
        DocumentIndex { root, documents, folders }
    }
}

// ---------------------------------------------------------------- lookups

/// The file names a folder's landing document may have (compared ignoring ASCII case).
pub open spec fn readme_names() -> Seq<Seq<char>> {
    seq!["readme.md"@, "readme.markdown"@, "readme.mdown"@]
}

/// A README directly in the root: a path without `/` whose file name is a README name.
pub open spec fn is_root_readme(rel: Seq<char>) -> bool {
    !rel.contains('/') && match file_name(rel) {
        Some(n) => readme_names().contains(ascii_lower(n)),
        None => false,
    }
}

/// The first index in `docs` at or after `i` whose document is a root README.
pub open spec fn readme_from(docs: Seq<Document>, i: int) -> Option<int>
    decreases docs.len() - i,
{
    if i < 0 || i >= docs.len() {
        None
    } else if is_root_readme(docs[i].relative_path@) {
        Some(i)
    } else {
        readme_from(docs, i + 1)
    }
}

/// The document shown first: the first root README, else the first document.
pub open spec fn preferred_position(docs: Seq<Document>) -> Option<int> {
    match readme_from(docs, 0) {
        Some(i) => Some(i),
        None => if docs.len() > 0 {
            Some(0)
        } else {
            None
        },
    }
}

/// `s` with every `\` written as `/`.
pub open spec fn slashed(s: Seq<char>) -> Seq<char> {
    s.map_values(|c: char| if c == '\\' { '/' } else { c })
}

fn slashed_exec(s: &str) -> (r: Vec<char>)
    ensures
        r@ == slashed(s@),
{
    let c = chars_of(s);
    let mut r: Vec<char> = Vec::new();
    let mut i: usize = 0;
    while i < c.len()
        invariant
            i <= c@.len(),
            r@ == slashed(c@.take(i as int)),
        decreases c@.len() - i,
    {
        r.push(if c[i] == '\\' { '/' } else { c[i] });
        assert(slashed(c@.take(i + 1)) =~= slashed(c@.take(i as int)).push(if c@[i as int] == '\\' { '/' } else { c@[i as int] }));
        i = i + 1;
    }
    assert(c@.take(c@.len() as int) =~= c@);
    r
}

/// Whether document `d` answers `route`: its route is `route`, or its relative path is the
/// decoded route (with `\` read as `/` in both).
pub open spec fn answers_route(d: Document, route: Seq<char>, decoded: Seq<char>) -> bool {
    route_of(d.relative_path@) == route || slashed(d.relative_path@) == slashed(decoded)
}

/// The first index at or after `i` of a document that answers the route.
pub open spec fn route_from(docs: Seq<Document>, route: Seq<char>, decoded: Seq<char>, i: int) -> Option<int>
    decreases docs.len() - i,
{
    if i < 0 || i >= docs.len() {
        None
    } else if answers_route(docs[i], route, decoded) {
        Some(i)
    } else {
        route_from(docs, route, decoded, i + 1)
    }
}

fn is_readme_name(rel: &[char]) -> (r: bool)
    ensures
        r == is_root_readme(rel@),
{
    let mut i: usize = 0;
    while i < rel.len()
        invariant
            i <= rel@.len(),
            forall|j: int| 0 <= j < i ==> rel@[j] != '/',
        decreases rel@.len() - i,
    {
        if rel[i] == '/' {
            assert(rel@.contains('/'));
            return false;
        }
        i = i + 1;
    }
    assert(!rel@.contains('/'));
    match crate::paths::file_name_range(rel) {
        None => false,
        Some((a, b)) => {
            let lower = lower_ascii_range(rel, a, b);
            let n1 = chars_of("readme.md");
            let n2 = chars_of("readme.markdown");
            let n3 = chars_of("readme.mdown");
            let r = same_chars(lower.as_slice(), n1.as_slice()) || same_chars(lower.as_slice(), n2.as_slice())
                || same_chars(lower.as_slice(), n3.as_slice());
            proof {
                let names = readme_names();
                assert(names[0] == n1@ && names[1] == n2@ && names[2] == n3@);
                if names.contains(lower@) {
                    let k = choose|k: int| 0 <= k < names.len() && names[k] == lower@;
                    assert(k == 0 || k == 1 || k == 2);
                }
            }
            r
        },
    }
}

impl DocumentIndex {
    /// The document to show first: the first README (`readme.md`, `readme.markdown` or
    /// `readme.mdown`, in any ASCII case) directly in the root, else the first document.
    pub fn preferred_document(&self) -> (r: Option<&Document>)
        ensures
            match preferred_position(self.documents@) {
                Some(i) => r == Some(&self.documents@[i]),
                None => r is None,
            },
    {
        let n = self.documents.len();
        let mut i: usize = 0;
        while i < n
            invariant
                n == self.documents@.len(),
                i <= n,
                readme_from(self.documents@, 0) == readme_from(self.documents@, i as int),
            decreases n - i,
        {
            let rel = chars_of(self.documents[i].relative_path.as_str());
            if is_readme_name(rel.as_slice()) {
                return Some(&self.documents[i]);
            }
            i = i + 1;
        }
        if n > 0 {
            Some(&self.documents[0])
        } else {
            None
        }
    }

    /// The document at a web route: the first whose route is `route`, or whose relative
    /// path is the percent-decoded route (read as UTF-8, invalid sequences replaced; `\`
    /// taken as `/`).
    pub fn find_route(&self, route: &str) -> (r: Option<&Document>)
        ensures
            match route_from(self.documents@, route@, lossy_decoded(percent_decoded(route.spec_bytes())), 0) {
                Some(i) => r == Some(&self.documents@[i]),
                None => r is None,
            },
    {
        let decoded = percent_decode_lossy(route);
        self.find_decoded_route(route, decoded.as_str())
    }

    /// The first document whose route is `route` or whose relative path is `decoded`
    /// (`\` taken as `/` in both paths).
    pub fn find_decoded_route(&self, route: &str, decoded: &str) -> (r: Option<&Document>)
        ensures
            match route_from(self.documents@, route@, decoded@, 0) {
                Some(i) => r == Some(&self.documents@[i]),
                None => r is None,
            },
    {
        let want = slashed_exec(decoded);
        let route_chars = chars_of(route);
        let ghost dv = decoded@;
        let n = self.documents.len();
        let mut i: usize = 0;
        while i < n
            invariant
                n == self.documents@.len(),
                i <= n,
                dv == decoded@,
                want@ == slashed(dv),
                route_chars@ == route@,
                route_from(self.documents@, route@, dv, 0) == route_from(self.documents@, route@, dv, i as int),
            decreases n - i,
        {
            let own = self.documents[i].route();
            let own_chars = chars_of(own.as_str());
            let rel = slashed_exec(self.documents[i].relative_path.as_str());
            if same_chars(own_chars.as_slice(), route_chars.as_slice()) || same_chars(rel.as_slice(), want.as_slice()) {
                assert(answers_route(self.documents@[i as int], route@, dv));
                return Some(&self.documents[i]);
            }
            assert(!answers_route(self.documents@[i as int], route@, dv));
            i = i + 1;
        }
        None
    }
}

// ---------------------------------------------------------------- laws

proof fn lemma_route_found_from(docs: Seq<Document>, route: Seq<char>, decoded: Seq<char>, i: int, k: int)
    requires
        0 <= i <= k < docs.len(),
        answers_route(docs[k], route, decoded),
    ensures
        route_from(docs, route, decoded, i) matches Some(j) && i <= j <= k && answers_route(docs[j], route, decoded),
    decreases k - i,
{
    if !answers_route(docs[i], route, decoded) {
        lemma_route_found_from(docs, route, decoded, i + 1, k);
    }
}

/// The route of every indexed document leads back to a document: `find_route` answers it
/// with the first document whose route or path it names, never later in the index than
/// the document it came from.
pub proof fn lemma_document_routes_are_found(docs: Seq<Document>, k: int, decoded: Seq<char>)
    requires
        0 <= k < docs.len(),
    ensures
        route_from(docs, route_of(docs[k].relative_path@), decoded, 0) matches Some(j) && j <= k
            && answers_route(docs[j], route_of(docs[k].relative_path@), decoded),
{
    lemma_route_found_from(docs, route_of(docs[k].relative_path@), decoded, 0, k);
}

proof fn lemma_route_from_is(docs: Seq<Document>, route: Seq<char>, decoded: Seq<char>, i: int, k: int)
    requires
        0 <= i <= k < docs.len(),
        answers_route(docs[k], route, decoded),
        forall|j: int| i <= j < k ==> !answers_route(#[trigger] docs[j], route, decoded),
    ensures
        route_from(docs, route, decoded, i) == Some(k),
    decreases k - i,
{
    if i < k {
        lemma_route_from_is(docs, route, decoded, i + 1, k);
    }
}

/// Sorting keeps paths in normal form (see `normal_paths`).
proof fn lemma_by_key_normal(s: Seq<Document>)
    requires
        normal_paths(s),
    ensures
        normal_paths(by_key(s)),
    decreases s.len(),
{
    broadcast use vstd::seq_lib::group_to_multiset_ensures;

    if s.len() > 0 {
        let r = s.drop_first();
        let x = s[0];
        assert forall|i: int, j: int|
            0 <= i < r.len() && 0 <= j < r.len() && i != j implies slashed(#[trigger] r[i].relative_path@) != slashed(
            #[trigger] r[j].relative_path@,
        ) by {
            assert(r[i] == s[i + 1] && r[j] == s[j + 1]);
        }
        assert forall|i: int| 0 <= i < r.len() implies crate::web::relative_key_of(#[trigger] r[i].relative_path@)
            == Some(r[i].relative_path@) by {
            assert(r[i] == s[i + 1]);
        }
        lemma_by_key_normal(r);
        lemma_by_key(r);
        let t = by_key(r);
        assert forall|q: int| 0 <= q < t.len() implies slashed(#[trigger] t[q].relative_path@) != slashed(
            x.relative_path@,
        ) && crate::web::relative_key_of(t[q].relative_path@) == Some(t[q].relative_path@) by {
            assert(t.contains(t[q]));
            assert(t.to_multiset().count(t[q]) > 0);
            assert(r.contains(t[q]));
            let j = choose|j: int| 0 <= j < r.len() && r[j] == t[q];
            assert(s[j + 1] == t[q]);
            assert(slashed(s[j + 1].relative_path@) != slashed(s[0].relative_path@));
        }
        lemma_leading_less(t, doc_key(x));
        let p = leading_less(t, doc_key(x)) as int;
        t.insert_ensures(p, x);
        let u = t.insert(p, x);
        assert(by_key(s) == u);
        assert forall|i: int| 0 <= i < u.len() implies crate::web::relative_key_of(#[trigger] u[i].relative_path@)
            == Some(u[i].relative_path@) by {
            if i < p {
                assert(u[i] == t[i]);
            } else if i > p {
                assert(u[i] == t[i - 1]);
            }
        }
        assert forall|i: int, j: int|
            0 <= i < u.len() && 0 <= j < u.len() && i != j implies slashed(#[trigger] u[i].relative_path@) != slashed(
            #[trigger] u[j].relative_path@,
        ) by {
            if i < p {
                assert(u[i] == t[i]);
            } else if i > p {
                assert(u[i] == t[i - 1]);
            }
            if j < p {
                assert(u[j] == t[j]);
            } else if j > p {
                assert(u[j] == t[j - 1]);
            }
        }
    }
}

/// Documents whose paths are in normal form, each its own index key (see
/// `relative_key_of`), no two of them differing only in `\` against `/`.
pub open spec fn normal_paths(docs: Seq<Document>) -> bool {
    &&& forall|i: int|
        0 <= i < docs.len() ==> crate::web::relative_key_of(#[trigger] docs[i].relative_path@) == Some(
            docs[i].relative_path@,
        )
    &&& forall|i: int, j: int|
        0 <= i < docs.len() && 0 <= j < docs.len() && i != j ==> slashed(#[trigger] docs[i].relative_path@)
            != slashed(#[trigger] docs[j].relative_path@)
}

/// `find_route` answers a document's own route with that very document, when the
/// indexed paths are in normal form (see `normal_paths`): the route decodes to the path,
/// and no other path has that route.
pub proof fn lemma_route_finds_its_document(docs: Seq<Document>, k: int)
    requires
        0 <= k < docs.len(),
        normal_paths(docs),
    ensures
        vstd::utf8::valid_utf8(percent_decoded(vstd::utf8::encode_utf8(route_of(docs[k].relative_path@)))),
        route_from(
            docs,
            route_of(docs[k].relative_path@),
            lossy_decoded(percent_decoded(vstd::utf8::encode_utf8(route_of(docs[k].relative_path@)))),
            0,
        ) == Some(k),
{
    let rel = docs[k].relative_path@;
    let route = route_of(rel);
    crate::web::lemma_routes_lead_back(rel);
    vstd::utf8::encode_utf8_valid_utf8(rel);
    vstd::utf8::encode_utf8_decode_utf8(rel);
    let decoded = vstd::utf8::decode_utf8(percent_decoded(vstd::utf8::encode_utf8(route)));
    assert(decoded == rel);
    assert forall|j: int| 0 <= j < k implies !answers_route(#[trigger] docs[j], route, decoded) by {
        let other = docs[j].relative_path@;
        assert(slashed(other) != slashed(rel));
        if route_of(other) == route {
            crate::web::lemma_routes_lead_back(other);
            assert(crate::web::relative_key_of(other) == Some(other));
        }
    }
    lemma_route_from_is(docs, route, decoded, 0, k);
}

} // verus!

