//! One-level directory listings derived from a flat manifest of file paths.
use vstd::prelude::*;
use crate::text::{
    chars_lt, chars_of, compare_chars, ends_with_chars, lemma_chars_lt_asymmetric,
    lemma_chars_lt_irreflexive, lemma_chars_lt_total, lemma_chars_lt_transitive, lower_of,
    lowercase, slice_chars, starts_with_chars, string_of,
};

verus! {

/// One stored file of a release: its mime type and its path from the release root.
#[derive(Debug, PartialEq, Eq)]
pub struct ManifestEntry {
    pub mime: String,
    pub path: String,
}

/// A listed child: a directory, or a file with its mime type.
#[derive(Debug, PartialEq, Eq)]
pub enum EntryKind {
    Dir,
    File(String),
}

/// One child of the listed directory.
#[derive(Debug, PartialEq, Eq)]
pub struct DirectoryEntry {
    pub name: String,
    pub kind: EntryKind,
}

/// The model of a listed child: its name, and `None` for a directory or the
/// mime type of a file.
pub struct Child {
    pub name: Seq<char>,
    pub mime: Option<Seq<char>>,
}

impl View for DirectoryEntry {
    type V = Child;

    open spec fn view(&self) -> Child {
        Child {
            name: self.name@,
            mime: match self.kind {
                EntryKind::Dir => None,
                EntryKind::File(m) => Some(m@),
            },
        }
    }
}

pub open spec fn entries_view(v: Seq<DirectoryEntry>) -> Seq<Child> {
    v.map_values(|e: DirectoryEntry| e@)
}

/// The name of the marker file that the packaging tool leaves in a release.
pub open spec fn marker() -> Seq<char> {
    seq!['.', 'c', 'a', 'r', 'g', 'o', '-', 'o', 'k']
}

/// A path whose last segment is the marker file.
pub open spec fn is_marker(path: Seq<char>) -> bool {
    let m = marker();
    &&& path.len() >= m.len()
    &&& path.skip(path.len() - m.len()) == m
    &&& (path.len() == m.len() || path[path.len() - m.len() - 1] == '/')
}

/// A directory prefix: empty for the root, else ending in a separator.
pub open spec fn is_dir_prefix(p: Seq<char>) -> bool {
    p.len() == 0 || p.last() == '/'
}

/// The index of the first `/` in `s`, or its length when it has none.
pub open spec fn slash_index(s: Seq<char>) -> int
    decreases s.len(),
{
    if s.len() == 0 {
        0
    } else if s[0] == '/' {
        0
    } else {
        1 + slash_index(s.drop_first())
    }
}

/// The child of the directory `prefix` through which a file stored at `path`
/// is reached, if the file lies below `prefix` and is not the marker.
pub open spec fn child_of(mime: Seq<char>, path: Seq<char>, prefix: Seq<char>) -> Option<Child> {
    if !is_marker(path) && prefix.is_prefix_of(path) {
        let rest = path.skip(prefix.len() as int);
        let k = slash_index(rest);
        if k < rest.len() {
            Some(Child { name: rest.take(k), mime: None })
        } else {
            Some(Child { name: rest, mime: Some(mime) })
        }
    } else {
        None
    }
}

/// The child that manifest entry `i` contributes.
pub open spec fn child_at(m: Seq<ManifestEntry>, i: int, prefix: Seq<char>) -> Option<Child> {
    child_of(m[i].mime@, m[i].path@, prefix)
}

/// Whether `c` is a child of `prefix` in the manifest.
pub open spec fn in_listing(m: Seq<ManifestEntry>, prefix: Seq<char>, c: Child) -> bool {
    exists|i: int| 0 <= i < m.len() && #[trigger] child_at(m, i, prefix) == Some(c)
}

/// Directories rank before files.
pub open spec fn rank(c: Child) -> int {
    if c.mime is Some {
        1
    } else {
        0
    }
}

/// Listing order: directories first, then by lowercase name, then by name,
/// then by mime type.
pub open spec fn child_lt(a: Child, b: Child) -> bool {
    if rank(a) != rank(b) {
        rank(a) < rank(b)
    } else if lower_of(a.name) != lower_of(b.name) {
        chars_lt(lower_of(a.name), lower_of(b.name))
    } else if a.name != b.name {
        chars_lt(a.name, b.name)
    } else {
        match (a.mime, b.mime) {
            (Some(x), Some(y)) => chars_lt(x, y),
            _ => false,
        }
    }
}

/// Each child sorts strictly before every later one.
pub open spec fn sorted_strict(s: Seq<Child>) -> bool {
    forall|i: int, j: int| 0 <= i < j < s.len() ==> child_lt(#[trigger] s[i], #[trigger] s[j])
}

pub proof fn lemma_child_lt_irreflexive(a: Child)
    ensures
        !child_lt(a, a),
{
    lemma_chars_lt_irreflexive(a.name);
    lemma_chars_lt_irreflexive(lower_of(a.name));
    if let Some(x) = a.mime {
        lemma_chars_lt_irreflexive(x);
    }
}

pub proof fn lemma_child_lt_total(a: Child, b: Child)
    ensures
        a == b || child_lt(a, b) || child_lt(b, a),
{
    lemma_chars_lt_total(a.name, b.name);
    lemma_chars_lt_total(lower_of(a.name), lower_of(b.name));
    if let (Some(x), Some(y)) = (a.mime, b.mime) {
        lemma_chars_lt_total(x, y);
    }
}

pub proof fn lemma_child_lt_asymmetric(a: Child, b: Child)
    ensures
        !(child_lt(a, b) && child_lt(b, a)),
{
    lemma_chars_lt_asymmetric(a.name, b.name);
    lemma_chars_lt_asymmetric(lower_of(a.name), lower_of(b.name));
    if let (Some(x), Some(y)) = (a.mime, b.mime) {
        lemma_chars_lt_asymmetric(x, y);
    }
}

pub proof fn lemma_child_lt_transitive(a: Child, b: Child, c: Child)
    requires
        child_lt(a, b),
        child_lt(b, c),
    ensures
        child_lt(a, c),
{
    if rank(a) == rank(b) && rank(b) == rank(c) {
        let (la, lb, lc) = (lower_of(a.name), lower_of(b.name), lower_of(c.name));
        if la != lb && lb != lc {
            lemma_chars_lt_transitive(la, lb, lc);
            if la == lc {
                lemma_chars_lt_asymmetric(la, lb);
            }
        } else if la == lb && lb == lc {
            if a.name != b.name && b.name != c.name {
                lemma_chars_lt_transitive(a.name, b.name, c.name);
                if a.name == c.name {
                    lemma_chars_lt_asymmetric(a.name, b.name);
                }
            } else if a.name == b.name && b.name == c.name {
                if let (Some(x), Some(y), Some(z)) = (a.mime, b.mime, c.mime) {
                    lemma_chars_lt_transitive(x, y, z);
                }
            }
        }
    }
}

} // verus!

verus! {

/// A child being collected, with its lowercase name kept for sorting.
struct Node {
    name: Vec<char>,
    mime: Option<Vec<char>>,
    lower: Vec<char>,
}

impl Node {
    spec fn child(&self) -> Child {
        Child {
            name: self.name@,
            mime: match self.mime {
                None => None,
                Some(m) => Some(m@),
            },
        }
    }

    spec fn wf(&self) -> bool {
        self.lower@ == lower_of(self.name@)
    }
}

spec fn nodes_view(v: Seq<Node>) -> Seq<Child> {
    v.map_values(|n: Node| n.child())
}

spec fn nodes_wf(v: Seq<Node>) -> bool {
    forall|i: int| 0 <= i < v.len() ==> (#[trigger] v[i]).wf()
}

fn new_node(name: Vec<char>, mime: Option<Vec<char>>) -> (r: Node)
    ensures
        r.wf(),
        r.name@ == name@,
        r.mime == mime,
{
    let s = string_of(&name);
    let l = lowercase(s.as_str());
    let lower = chars_of(l.as_str());
    Node { name, mime, lower }
}

fn compare_nodes(a: &Node, b: &Node) -> (r: i8)
    requires
        a.wf(),
        b.wf(),
    ensures
        r == -1 <==> child_lt(a.child(), b.child()),
        r == 0 <==> a.child() == b.child(),
        r == 1 <==> child_lt(b.child(), a.child()),
{
    proof {
        lemma_child_lt_total(a.child(), b.child());
        lemma_child_lt_asymmetric(a.child(), b.child());
        lemma_child_lt_irreflexive(a.child());
    }
    let ra: u8 = if a.mime.is_some() { 1 } else { 0 };
    let rb: u8 = if b.mime.is_some() { 1 } else { 0 };
    if ra != rb {
        return if ra < rb { -1 } else { 1 };
    }
    let c = compare_chars(&a.lower, &b.lower);
    if c != 0 {
        return c;
    }
    let c = compare_chars(&a.name, &b.name);
    if c != 0 {
        return c;
    }
    match (&a.mime, &b.mime) {
        (Some(x), Some(y)) => compare_chars(x, y),
        _ => 0,
    }
}

/// The index of the first `/` in `s`, or its length when it has none.
fn find_slash(s: &Vec<char>) -> (k: usize)
    ensures
        k == slash_index(s@),
{
    let mut k: usize = 0;
    assert(s@.skip(0) =~= s@);
    while k < s.len() && s[k] != '/'
        invariant
            0 <= k <= s.len(),
            slash_index(s@) == k + slash_index(s@.skip(k as int)),
        decreases s.len() - k,
    {
        assert(s@.skip(k as int).drop_first() =~= s@.skip(k + 1));
        k = k + 1;
    }
    proof {
        if k < s.len() {
            assert(s@.skip(k as int)[0] == '/');
        } else {
            assert(s@.skip(k as int).len() == 0);
        }
    }
    k
}

proof fn lemma_slash_index_bounds(s: Seq<char>)
    ensures
        0 <= slash_index(s) <= s.len(),
        slash_index(s) < s.len() ==> s[slash_index(s)] == '/',
    decreases s.len(),
{
    if s.len() > 0 && s[0] != '/' {
        lemma_slash_index_bounds(s.drop_first());
    }
}

/// Whether the path's last segment is the marker file.
fn path_is_marker(path: &Vec<char>) -> (r: bool)
    ensures
        r == is_marker(path@),
{
    let m: Vec<char> = vec!['.', 'c', 'a', 'r', 'g', 'o', '-', 'o', 'k'];
    assert(m@ =~= marker());
    if !ends_with_chars(path, &m) {
        return false;
    }
    path.len() == m.len() || path[path.len() - m.len() - 1] == '/'
}

/// The child through which the entry is reached from `prefix`, if any.
fn child_node(e: &ManifestEntry, prefix: &Vec<char>) -> (r: Option<Node>)
    ensures
        r is None <==> child_of(e.mime@, e.path@, prefix@) is None,
        r matches Some(n) ==> n.wf() && child_of(e.mime@, e.path@, prefix@) == Some(n.child()),
{
    let path = chars_of(e.path.as_str());
    if path_is_marker(&path) || !starts_with_chars(&path, prefix) {
        return None;
    }
    let rest = slice_chars(&path, prefix.len(), path.len());
    assert(rest@ =~= path@.skip(prefix.len() as int));
    let k = find_slash(&rest);
    proof {
        lemma_slash_index_bounds(rest@);
    }
    if k < rest.len() {
        let name = slice_chars(&rest, 0, k);
        assert(name@ =~= rest@.take(k as int));
        Some(new_node(name, None))
    } else {
        Some(new_node(rest, Some(chars_of(e.mime.as_str()))))
    }
}

/// Adds `n` to the sorted `v`, unless an equal child is there already.
fn insert_node(v: &mut Vec<Node>, n: Node)
    requires
        nodes_wf(old(v)@),
        sorted_strict(nodes_view(old(v)@)),
        n.wf(),
    ensures
        nodes_wf(final(v)@),
        sorted_strict(nodes_view(final(v)@)),
        forall|c: Child| #[trigger] nodes_view(final(v)@).contains(c)
            <==> nodes_view(old(v)@).contains(c) || c == n.child(),
{
    let ghost s = nodes_view(v@);
    let mut i: usize = 0;
    while i < v.len() && compare_nodes(&v[i], &n) == -1
        invariant
            0 <= i <= v.len(),
            v@ == old(v)@,
            s == nodes_view(v@),
            nodes_wf(v@),
            n.wf(),
            forall|j: int| 0 <= j < i ==> child_lt(#[trigger] s[j], n.child()),
        decreases v.len() - i,
    {
        i = i + 1;
    }
    if i < v.len() {
        let c = compare_nodes(&v[i], &n);
        assert(s[i as int] == v@[i as int].child());
        if c == 0 {
            assert(s[i as int] == n.child());
            assert forall|c: Child| #[trigger] s.contains(c) <==> s.contains(c) || c == n.child() by {
                if c == n.child() {
                    assert(s[i as int] == c);
                }
            }
            return;
        }
        proof {
            lemma_child_lt_total(s[i as int], n.child());
        }
        assert(child_lt(n.child(), s[i as int]));
    }
    let ghost nc = n.child();
    v.insert(i, n);
    proof {
        let t = nodes_view(v@);
        assert(t =~= s.insert(i as int, nc));
        assert forall|a: int, b: int| 0 <= a < b < t.len() implies child_lt(#[trigger] t[a], #[trigger] t[b]) by {
            if b < i {
                assert(t[a] == s[a] && t[b] == s[b]);
            } else if b == i {
                assert(t[a] == s[a]);
            } else if a == i {
                if b > i + 1 {
                    lemma_child_lt_transitive(nc, s[i as int], s[b - 1]);
                }
            } else if a < i {
                assert(t[a] == s[a]);
                assert(t[b] == s[b - 1]);
                assert(child_lt(s[a], s[b - 1]));
            } else {
                assert(t[a] == s[a - 1]);
                assert(t[b] == s[b - 1]);
            }
        }
        assert forall|j: int| 0 <= j < v@.len() implies (#[trigger] v@[j]).wf() by {
            if j < i {
                assert(v@[j] == old(v)@[j]);
            } else if j > i {
                assert(v@[j] == old(v)@[j - 1]);
            }
        }
        assert forall|c: Child| #[trigger] t.contains(c) <==> s.contains(c) || c == nc by {
            if t.contains(c) {
                let j = choose|j: int| 0 <= j < t.len() && t[j] == c;
                if j < i {
                    assert(s[j] == c);
                } else if j > i {
                    assert(s[j - 1] == c);
                }
            }
            if s.contains(c) {
                let j = choose|j: int| 0 <= j < s.len() && s[j] == c;
                if j < i {
                    assert(t[j] == c);
                } else {
                    assert(t[j + 1] == c);
                }
            }
            if c == nc {
                assert(t[i as int] == c);
            }
        }
    }
}

} // verus!

verus! {

/// `s` is the listing of `prefix`: every child once, in listing order.
pub open spec fn is_listing(m: Seq<ManifestEntry>, prefix: Seq<char>, s: Seq<Child>) -> bool {
    &&& sorted_strict(s)
    &&& forall|c: Child| #[trigger] s.contains(c) <==> in_listing(m, prefix, c)
}

/// No manifest entry lies below `prefix`, the marker aside.
pub open spec fn no_children(m: Seq<ManifestEntry>, prefix: Seq<char>) -> bool {
    forall|i: int| 0 <= i < m.len() ==> #[trigger] child_at(m, i, prefix) is None
}

fn entry_of(n: &Node) -> (r: DirectoryEntry)
    ensures
        r@ == n.child(),
{
    let kind = match &n.mime {
        None => EntryKind::Dir,
        Some(m) => EntryKind::File(string_of(m)),
    };
    DirectoryEntry { name: string_of(&n.name), kind }
}

/// The children of the directory `prefix` in the manifest, directories first
/// and then files, each group by lowercase name; `None` when there are none.
pub fn build_listing(manifest: &Vec<ManifestEntry>, prefix: &str) -> (r: Option<Vec<DirectoryEntry>>)
    ensures
        r is None <==> no_children(manifest@, prefix@),
        r matches Some(v) ==> is_listing(manifest@, prefix@, entries_view(v@)),
{
    let pre = chars_of(prefix);
    let mut nodes: Vec<Node> = Vec::new();
    let mut i: usize = 0;
    while i < manifest.len()
        invariant
            0 <= i <= manifest.len(),
            pre@ == prefix@,
            nodes_wf(nodes@),
            sorted_strict(nodes_view(nodes@)),
            forall|c: Child| #[trigger] nodes_view(nodes@).contains(c)
                <==> exists|j: int| 0 <= j < i && #[trigger] child_at(manifest@, j, prefix@) == Some(c),
            nodes@.len() == 0 <==> forall|j: int| 0 <= j < i ==> #[trigger] child_at(manifest@, j, prefix@) is None,
        decreases manifest.len() - i,
    {
        let ghost before = nodes_view(nodes@);
        match child_node(&manifest[i], &pre) {
            None => {
                assert forall|c: Child| #[trigger] nodes_view(nodes@).contains(c)
                    <==> exists|j: int| 0 <= j < i + 1 && #[trigger] child_at(manifest@, j, prefix@) == Some(c) by {
                    if exists|j: int| 0 <= j < i + 1 && #[trigger] child_at(manifest@, j, prefix@) == Some(c) {
                        let j = choose|j: int| 0 <= j < i + 1 && #[trigger] child_at(manifest@, j, prefix@) == Some(c);
                        assert(j != i);
                    }
                }
            },
            Some(n) => {
                let ghost nc = n.child();
                insert_node(&mut nodes, n);
                assert(nodes_view(nodes@).contains(nc));
                assert(child_at(manifest@, i as int, prefix@) == Some(nc));
                assert forall|c: Child| #[trigger] nodes_view(nodes@).contains(c)
                    <==> exists|j: int| 0 <= j < i + 1 && #[trigger] child_at(manifest@, j, prefix@) == Some(c) by {
                    if exists|j: int| 0 <= j < i + 1 && #[trigger] child_at(manifest@, j, prefix@) == Some(c) {
                        let j = choose|j: int| 0 <= j < i + 1 && #[trigger] child_at(manifest@, j, prefix@) == Some(c);
                        if j < i {
                            assert(before.contains(c));
                        }
                    }
                }
            },
        }
        i = i + 1;
    }
    if nodes.len() == 0 {
        return None;
    }
    let mut out: Vec<DirectoryEntry> = Vec::new();
    let mut k: usize = 0;
    while k < nodes.len()
        invariant
            0 <= k <= nodes.len(),
            entries_view(out@) == nodes_view(nodes@).take(k as int),
        decreases nodes.len() - k,
    {
        let e = entry_of(&nodes[k]);
        assert(e@ == nodes_view(nodes@)[k as int]);
        let ghost prev = out@;
        out.push(e);
        assert(out@ == prev.push(e));
        assert(entries_view(out@) =~= entries_view(prev).push(e@));
        assert(entries_view(out@) =~= nodes_view(nodes@).take(k + 1));
        k = k + 1;
    }
    assert(entries_view(out@) =~= nodes_view(nodes@));
    Some(out)
}

} // verus!

verus! {

/// The marker file is never listed as a file, at any depth.
pub proof fn lemma_marker_never_listed(m: Seq<ManifestEntry>, prefix: Seq<char>, s: Seq<Child>)
    requires
        is_dir_prefix(prefix),
        is_listing(m, prefix, s),
    ensures
        forall|i: int| 0 <= i < s.len() && (#[trigger] s[i]).mime is Some ==> s[i].name != marker(),
{
    assert forall|i: int| 0 <= i < s.len() && (#[trigger] s[i]).mime is Some implies s[i].name != marker() by {
        let c = s[i];
        assert(s.contains(c));
        let j = choose|j: int| 0 <= j < m.len() && #[trigger] child_at(m, j, prefix) == Some(c);
        let path = m[j].path@;
        let rest = path.skip(prefix.len() as int);
        if c.name == marker() {
            assert(rest == marker());
            assert(path =~= prefix + rest);
            assert(path.skip(path.len() - marker().len()) =~= rest);
            if prefix.len() > 0 {
                assert(path[path.len() - marker().len() - 1] == prefix.last());
            }
            assert(is_marker(path));
        }
    }
}

/// No child is listed twice.
pub proof fn lemma_listing_unique(m: Seq<ManifestEntry>, prefix: Seq<char>, s: Seq<Child>)
    requires
        is_listing(m, prefix, s),
    ensures
        forall|i: int, j: int| 0 <= i < s.len() && 0 <= j < s.len() && i != j ==> s[i] != s[j],
{
    assert forall|i: int, j: int| 0 <= i < s.len() && 0 <= j < s.len() && i != j implies s[i] != s[j] by {
        lemma_child_lt_irreflexive(s[i]);
        if i < j {
            assert(child_lt(s[i], s[j]));
        } else {
            assert(child_lt(s[j], s[i]));
        }
    }
}

/// Directories come before files, and within each group names do not
/// decrease when compared without case.
pub proof fn lemma_listing_order(m: Seq<ManifestEntry>, prefix: Seq<char>, s: Seq<Child>)
    requires
        is_listing(m, prefix, s),
    ensures
        forall|i: int, j: int| 0 <= i < j < s.len() && (#[trigger] s[j]).mime is None ==> (#[trigger] s[i]).mime is None,
        forall|i: int, j: int| 0 <= i < j < s.len() && (#[trigger] s[i]).mime is Some == (#[trigger] s[j]).mime is Some
            ==> lower_of(s[i].name) == lower_of(s[j].name) || chars_lt(lower_of(s[i].name), lower_of(s[j].name)),
{
    assert forall|i: int, j: int| 0 <= i < j < s.len() && (#[trigger] s[j]).mime is None implies (#[trigger] s[i]).mime is None by {
        assert(child_lt(s[i], s[j]));
    }
    assert forall|i: int, j: int| 0 <= i < j < s.len() && (#[trigger] s[i]).mime is Some == (#[trigger] s[j]).mime is Some
        implies lower_of(s[i].name) == lower_of(s[j].name) || chars_lt(lower_of(s[i].name), lower_of(s[j].name)) by {
        assert(child_lt(s[i], s[j]));
    }
}

/// A directory has no listing exactly when no manifest path, the marker
/// aside, starts with its prefix.
pub proof fn lemma_absent_iff_nothing_below(m: Seq<ManifestEntry>, prefix: Seq<char>)
    ensures
        no_children(m, prefix) <==> forall|i: int| 0 <= i < m.len()
            ==> is_marker(#[trigger] m[i].path@) || !prefix.is_prefix_of(m[i].path@),
{
    if no_children(m, prefix) {
        assert forall|i: int| 0 <= i < m.len() implies is_marker(#[trigger] m[i].path@) || !prefix.is_prefix_of(m[i].path@) by {
            assert(child_at(m, i, prefix) is None);
        }
    }
}

} // verus!
