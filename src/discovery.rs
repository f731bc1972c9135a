//! Which walked entries are documents, and the slug of each.

use vstd::prelude::*;
use crate::text::{chars_of, push_chars};

verus! {

/// The index of the last `c` in `s`, or -1 where there is none.
pub open spec fn last_index_of(s: Seq<char>, c: char) -> int
    decreases s.len(),
{
    if s.len() == 0 {
        -1
    } else if s.last() == c {
        s.len() - 1
    } else {
        last_index_of(s.drop_last(), c)
    }
}

/// The last component of a `/`-separated path.
pub open spec fn base_name(p: Seq<char>) -> Seq<char> {
    p.subrange(last_index_of(p, '/') + 1, p.len() as int)
}

/// A file name has an extension where it holds a dot other than a leading one.
pub open spec fn has_extension(name: Seq<char>) -> bool {
    last_index_of(name, '.') > 0
}

/// What follows the last dot of a file name.
pub open spec fn extension(name: Seq<char>) -> Seq<char> {
    name.subrange(last_index_of(name, '.') + 1, name.len() as int)
}

/// A file name without its extension.
pub open spec fn stem(name: Seq<char>) -> Seq<char> {
    if has_extension(name) {
        name.subrange(0, last_index_of(name, '.'))
    } else {
        name
    }
}

/// A path names a document where its extension is exactly `md`.
pub open spec fn is_document(p: Seq<char>) -> bool {
    has_extension(base_name(p)) && extension(base_name(p)) == "md"@
}

/// The slug of the document at path `p`: its file name without extension.
pub open spec fn slug_of(p: Seq<char>) -> Seq<char> {
    stem(base_name(p))
}

proof fn lemma_last_index_bounds(s: Seq<char>, c: char)
    ensures
        -1 <= last_index_of(s, c) < s.len(),
        last_index_of(s, c) >= 0 ==> s[last_index_of(s, c)] == c,
    decreases s.len(),
{
    if s.len() > 0 && s.last() != c {
        lemma_last_index_bounds(s.drop_last(), c);
    }
}

proof fn lemma_last_index_after(a: Seq<char>, b: Seq<char>, c: char)
    requires
        forall|i: int| 0 <= i < b.len() ==> b[i] != c,
    ensures
        last_index_of(a.push(c) + b, c) == a.len(),
    decreases b.len(),
{
    let s = a.push(c) + b;
    if b.len() == 0 {
        assert(s == a.push(c));
    } else {
        assert(s.drop_last() == a.push(c) + b.drop_last());
        lemma_last_index_after(a, b.drop_last(), c);
    }
}

/// Whether a file is a document, and its slug, depend on its name alone,
/// not on the directory it lies in or how deep.
pub proof fn lemma_document_at_any_depth(dir: Seq<char>, name: Seq<char>)
    requires
        forall|i: int| 0 <= i < name.len() ==> name[i] != '/',
    ensures
        base_name(dir.push('/') + name) == name,
        is_document(dir.push('/') + name) == is_document(name),
        slug_of(dir.push('/') + name) == slug_of(name),
{
    let p = dir.push('/') + name;
    lemma_last_index_after(dir, name, '/');
    assert(p.subrange(dir.len() + 1 as int, p.len() as int) == name);
    lemma_last_index_bounds(name, '/');
    assert(name.subrange(0, name.len() as int) == name);
}

/// Where `c` last stands in `cs`, if anywhere.
fn find_last(cs: &[char], c: char) -> (r: Option<usize>)
    ensures
        r matches Some(i) ==> i as int == last_index_of(cs@, c),
        r is None ==> last_index_of(cs@, c) == -1,
{
    let mut i: usize = cs.len();
    assert(cs@.subrange(0, i as int) == cs@);
    while i > 0
        invariant
            i <= cs@.len(),
            last_index_of(cs@, c) == last_index_of(cs@.subrange(0, i as int), c),
        decreases i,
    {
        let ghost pre = cs@.subrange(0, i as int);
        assert(pre.drop_last() == cs@.subrange(0, i - 1));
        if cs[i - 1] == c {
            return Some(i - 1);
        }
        i = i - 1;
    }
    None
}

/// The file name at the end of a path.
fn base_name_chars(path: &str) -> (r: Vec<char>)
    ensures
        r@ == base_name(path@),
{
    let cs = chars_of(path);
    let n = cs.len();
    proof {
        lemma_last_index_bounds(cs@, '/');
    }
    let start: usize = match find_last(cs.as_slice(), '/') {
        Some(i) => i + 1,
        None => 0,
    };
    let mut r: Vec<char> = Vec::new();
    let mut j: usize = start;
    while j < cs.len()
        invariant
            start <= j <= cs@.len(),
            r@ == cs@.subrange(start as int, j as int),
        decreases cs@.len() - j,
    {
        r.push(cs[j]);
        j = j + 1;
        assert(r@ =~= cs@.subrange(start as int, j as int));
    }
    r
}

/// Whether the path names a document: a file name with extension `md`,
/// compared exactly. A name without extension is no document.
pub fn is_document_path(path: &str) -> (r: bool)
    ensures
        r == is_document(path@),
{
    let name = base_name_chars(path);
    proof {
        lemma_last_index_bounds(name@, '.');
    }
    match find_last(name.as_slice(), '.') {
        Some(d) => {
            let ghost ext = name@.subrange(d + 1, name@.len() as int);
            proof {
                reveal_strlit("md");
            }
            if d == 0 || name.len() - d != 3 {
                assert(d == 0 || ext.len() != "md"@.len());
                return false;
            }
            let r = name[d + 1] == 'm' && name[d + 2] == 'd';
            proof {
                if r {
                    assert(ext =~= "md"@);
                } else if ext == "md"@ {
                    assert(ext[0] == 'm' && ext[1] == 'd');
                }
            }
            r
        },
        None => false,
    }
}

/// The slug of the document at `path`: its file name without extension.
pub fn document_slug(path: &str) -> (r: String)
    ensures
        r@ == slug_of(path@),
{
    let name = base_name_chars(path);
    proof {
        lemma_last_index_bounds(name@, '.');
    }
    let end: usize = match find_last(name.as_slice(), '.') {
        Some(d) => if d > 0 {
            d
        } else {
            name.len()
        },
        None => name.len(),
    };
    let mut out = String::new();
    push_chars(&mut out, name.as_slice().split_at(end).0);
    assert(name@.subrange(0, name@.len() as int) == name@);
    out
}

/// An entry met while walking the input directory.
pub struct WalkEntry {
    pub path: String,
    pub is_file: bool,
}

/// The paths of the entries that are regular files and documents, in order.
pub open spec fn document_paths(es: Seq<WalkEntry>) -> Seq<Seq<char>>
    decreases es.len(),
{
    if es.len() == 0 {
        Seq::empty()
    } else {
        let pre = document_paths(es.drop_last());
        let e = es.last();
        if e.is_file && is_document(e.path@) {
            pre.push(e.path@)
        } else {
            pre
        }
    }
}

/// The character sequences of a list of strings.
pub open spec fn string_views(v: Seq<String>) -> Seq<Seq<char>> {
    v.map_values(|s: String| s@)
}

/// Keeps the entries that are documents, in the order of the walk.
pub fn select_documents(entries: &Vec<WalkEntry>) -> (r: Vec<String>)
    ensures
        string_views(r@) == document_paths(entries@),
{
    let mut out: Vec<String> = Vec::new();
    let mut i: usize = 0;
    while i < entries.len()
        invariant
            i <= entries@.len(),
            string_views(out@) == document_paths(entries@.subrange(0, i as int)),
        decreases entries@.len() - i,
    {
        let e = &entries[i];
        assert(entries@.subrange(0, i + 1).drop_last() == entries@.subrange(0, i as int));
        if e.is_file && is_document_path(e.path.as_str()) {
            let ghost pre = out@;
            out.push(e.path.clone());
            assert(string_views(out@) =~= string_views(pre).push(e.path@));
        }
        i = i + 1;
    }
    assert(entries@.subrange(0, entries@.len() as int) == entries@);
    out
}

} // verus!
