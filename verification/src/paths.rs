//! Destination layout of the two write phases.
//!
//! Relocated originals go to `{root}/processed/sorted/{series_id}/{name}`;
//! de-identified copies go to
//! `{root}/processed/anonymized/{series_id}/{stem}_anonymized.{ext}`. The two
//! trees are disjoint: no destination of one phase ever lies under the other
//! phase's tree.

use vstd::prelude::*;
use vstd::string::StrSliceExecFns;
use vstd::string::StringExecFns;

verus! {

/// The tree that holds relocated originals.
pub open spec fn sorted_tree(root: Seq<char>) -> Seq<char> {
    root + "/processed/sorted"@
}

/// The tree that holds de-identified copies.
pub open spec fn anonymized_tree(root: Seq<char>) -> Seq<char> {
    root + "/processed/anonymized"@
}

/// The destination directory of one series' relocated originals.
pub open spec fn series_sorted_dir(root: Seq<char>, sid: Seq<char>) -> Seq<char> {
    sorted_tree(root) + "/"@ + sid
}

/// The destination directory of one series' de-identified copies.
pub open spec fn series_anonymized_dir(root: Seq<char>, sid: Seq<char>) -> Seq<char> {
    anonymized_tree(root) + "/"@ + sid
}

/// The final component of a path: everything after the last `/`.
pub open spec fn file_name_of(path: Seq<char>) -> Seq<char>
    decreases path.len(),
{
    if path.len() == 0 {
        path
    } else if path.last() == '/' {
        Seq::empty()
    } else {
        file_name_of(path.drop_last()).push(path.last())
    }
}

/// Where the name splits into stem and extension: the index of the last `.`,
/// unless it is the leading character. A name without such a dot has no
/// extension.
pub open spec fn last_dot(name: Seq<char>) -> Option<int>
    decreases name.len(),
{
    if name.len() <= 1 {
        None
    } else if name.last() == '.' {
        Some(name.len() - 1)
    } else {
        last_dot(name.drop_last())
    }
}

/// The de-identified copy's file name: `_anonymized` goes between stem and
/// extension, or at the end of a name that has no extension.
pub open spec fn anonymized_name(name: Seq<char>) -> Seq<char> {
    match last_dot(name) {
        Some(d) => name.subrange(0, d) + "_anonymized"@ + name.subrange(d, name.len() as int),
        None => name + "_anonymized"@,
    }
}

/// The full destination of one relocated original.
pub open spec fn relocate_dest(root: Seq<char>, sid: Seq<char>, path: Seq<char>) -> Seq<char> {
    series_sorted_dir(root, sid) + "/"@ + file_name_of(path)
}

/// The full destination of one de-identified copy.
pub open spec fn anonymize_dest(root: Seq<char>, sid: Seq<char>, path: Seq<char>) -> Seq<char> {
    series_anonymized_dir(root, sid) + "/"@ + anonymized_name(file_name_of(path))
}

/// Whether path `p` lies strictly under the directory `dir`.
pub open spec fn in_tree(dir: Seq<char>, p: Seq<char>) -> bool {
    p.len() > dir.len() && p.subrange(0, dir.len() as int) == dir && p[dir.len() as int] == '/'
}

/// Disjoint destinations: every relocation write lands under the sorted
/// tree and never under the anonymized tree; every anonymization write lands
/// under the anonymized tree and never under the sorted tree. In particular
/// no relocation destination equals an anonymization destination.
pub proof fn lemma_disjoint_destinations(
    root: Seq<char>,
    sid1: Seq<char>,
    path1: Seq<char>,
    sid2: Seq<char>,
    path2: Seq<char>,
)
    ensures
        in_tree(sorted_tree(root), relocate_dest(root, sid1, path1)),
        !in_tree(anonymized_tree(root), relocate_dest(root, sid1, path1)),
        in_tree(anonymized_tree(root), anonymize_dest(root, sid2, path2)),
        !in_tree(sorted_tree(root), anonymize_dest(root, sid2, path2)),
        relocate_dest(root, sid1, path1) != anonymize_dest(root, sid2, path2),
{
    reveal_strlit("/processed/sorted");
    reveal_strlit("/processed/anonymized");
    reveal_strlit("/");
    let r = relocate_dest(root, sid1, path1);
    let a = anonymize_dest(root, sid2, path2);
    let st = sorted_tree(root);
    let at = anonymized_tree(root);
    assert(r.subrange(0, st.len() as int) =~= st);
    assert(r[st.len() as int] == '/');
    assert(a.subrange(0, at.len() as int) =~= at);
    assert(a[at.len() as int] == '/');
    // the two trees differ at the character after "/processed/"
    assert(r[root.len() as int + 11] == 's');
    assert(at[root.len() as int + 11] == 'a');
    if in_tree(at, r) {
        assert(r.subrange(0, at.len() as int)[root.len() as int + 11] == r[root.len() as int + 11]);
        assert(false);
    }
    assert(a[root.len() as int + 11] == 'a');
    assert(st[root.len() as int + 11] == 's');
    if in_tree(st, a) {
        assert(a.subrange(0, st.len() as int)[root.len() as int + 11] == a[root.len() as int + 11]);
        assert(false);
    }
    if r == a {
        assert(a[root.len() as int + 11] == 's');
        assert(false);
    }
}

/// A scan that found the last separator pins down `file_name_of`.
proof fn lemma_file_name_from_cut(p: Seq<char>, k: int)
    requires
        0 <= k <= p.len(),
        forall|x: int| k <= x < p.len() ==> p[x] != '/',
        k > 0 ==> p[k - 1] == '/',
    ensures
        file_name_of(p) == p.subrange(k, p.len() as int),
    decreases p.len(),
{
    if p.len() == 0 {
        assert(file_name_of(p) =~= p.subrange(0, 0));
    } else if k == p.len() {
        if p.last() == '/' {
            assert(file_name_of(p) =~= p.subrange(k, p.len() as int));
        } else {
            assert(false);
        }
    } else {
        assert(p.last() != '/');
        lemma_file_name_from_cut(p.drop_last(), k);
        assert(file_name_of(p) =~= p.subrange(k, p.len() as int)) by {
            assert(p.drop_last().subrange(k, p.len() - 1) =~= p.subrange(k, p.len() - 1));
            assert(file_name_of(p) == file_name_of(p.drop_last()).push(p.last()));
            assert(p.subrange(k, p.len() as int) =~= p.subrange(k, p.len() - 1).push(p.last()));
        }
    }
}

/// A scan that found the last eligible dot pins down `last_dot`.
proof fn lemma_last_dot_from_cut(name: Seq<char>, d: int)
    requires
        1 <= d < name.len(),
        name[d] == '.',
        forall|x: int| d < x < name.len() ==> name[x] != '.',
    ensures
        last_dot(name) == Some(d),
    decreases name.len(),
{
    if d == name.len() - 1 {
    } else {
        assert(name.last() != '.');
        assert(name.drop_last()[d] == name[d]);
        lemma_last_dot_from_cut(name.drop_last(), d);
    }
}

/// A scan that found no eligible dot pins down `last_dot`.
proof fn lemma_no_dot_from_scan(name: Seq<char>)
    requires
        forall|x: int| 1 <= x < name.len() ==> name[x] != '.',
    ensures
        last_dot(name) is None,
    decreases name.len(),
{
    if name.len() > 1 {
        lemma_no_dot_from_scan(name.drop_last());
    }
}

/// Extracts the final component of `path`: everything after the last `/`.
pub fn file_name_part(path: &String) -> (r: String)
    ensures
        r@ == file_name_of(path@),
{
    let s = path.as_str();
    let n = s.unicode_len();
    let mut k: usize = n;
    while k > 0 && s.get_char(k - 1) != '/'
        invariant
            0 <= k <= n,
            n == path@.len(),
            s@ == path@,
            forall|x: int| k <= x < n ==> path@[x] != '/',
        decreases k,
    {
        k -= 1;
    }
    proof {
        lemma_file_name_from_cut(path@, k as int);
    }
    let part = s.substring_char(k, n);
    part.to_owned()
}

/// Builds the de-identified copy's file name from the original's.
pub fn anonymized_name_of(name: &String) -> (r: String)
    ensures
        r@ == anonymized_name(name@),
{
    let s = name.as_str();
    let n = s.unicode_len();
    let mut d: usize = n;
    while d > 1 && s.get_char(d - 1) != '.'
        invariant
            0 <= d <= n,
            n == name@.len(),
            s@ == name@,
            forall|x: int| d <= x < n ==> name@[x] != '.',
        decreases d,
    {
        d -= 1;
    }
    if d > 1 {
        proof {
            lemma_last_dot_from_cut(name@, d - 1);
        }
        let stem = s.substring_char(0, d - 1).to_owned();
        let r = stem.concat("_anonymized").concat(s.substring_char(d - 1, n));
        proof {
            assert(r@ =~= anonymized_name(name@));
        }
        r
    } else {
        proof {
            lemma_no_dot_from_scan(name@);
        }
        let r = s.to_owned().concat("_anonymized");
        proof {
            assert(r@ =~= anonymized_name(name@));
        }
        r
    }
}

/// Builds `{root}/processed/sorted/{sid}`.
pub fn build_sorted_dir(root: &String, sid: &String) -> (r: String)
    ensures
        r@ == series_sorted_dir(root@, sid@),
{
    let r = root.clone().concat("/processed/sorted").concat("/").concat(sid.as_str());
    proof {
        assert(r@ =~= series_sorted_dir(root@, sid@));
    }
    r
}

/// Builds `{root}/processed/anonymized/{sid}`.
pub fn build_anonymized_dir(root: &String, sid: &String) -> (r: String)
    ensures
        r@ == series_anonymized_dir(root@, sid@),
{
    let r = root.clone().concat("/processed/anonymized").concat("/").concat(sid.as_str());
    proof {
        assert(r@ =~= series_anonymized_dir(root@, sid@));
    }
    r
}

/// Builds the full relocation destination for one source path.
pub fn build_relocate_dest(root: &String, sid: &String, path: &String) -> (r: String)
    ensures
        r@ == relocate_dest(root@, sid@, path@),
{
    let name = file_name_part(path);
    let r = build_sorted_dir(root, sid).concat("/").concat(name.as_str());
    proof {
        assert(r@ =~= relocate_dest(root@, sid@, path@));
    }
    r
}

/// Builds the full anonymization destination for one source path.
pub fn build_anonymize_dest(root: &String, sid: &String, path: &String) -> (r: String)
    ensures
        r@ == anonymize_dest(root@, sid@, path@),
{
    let name = file_name_part(path);
    let anon = anonymized_name_of(&name);
    let r = build_anonymized_dir(root, sid).concat("/").concat(anon.as_str());
    proof {
        assert(r@ =~= anonymize_dest(root@, sid@, path@));
    }
    r
}

} // verus!
