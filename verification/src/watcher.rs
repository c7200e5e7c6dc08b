use crate::paths::{normalize_path, normalized};
use crate::text::{chars_of, has_prefix, slice_chars, starts_with};
use vstd::prelude::*;

verus! {

/// Normalises a path the way the watcher compares it with the index
/// (see [`normalized`]).
pub fn norm(p: &str) -> (r: String)
    ensures
        r@ == normalized(p@),
{
    normalize_path(p)
}

/// The number of non-empty `/`-separated components of `s`.
pub open spec fn component_count(s: Seq<char>) -> nat
    decreases s.len(),
{
    if s.len() == 0 {
        0
    } else {
        component_count(s.drop_last()) + if s.last() != '/' && (s.len() == 1 || s[s.len() - 2]
            == '/') {
            1nat
        } else {
            0nat
        }
    }
}

/// Whether `path` lies in directory `root` (or is `root`).
pub open spec fn under_root(path: Seq<char>, root: Seq<char>) -> bool {
    &&& starts_with(path, root)
    &&& (path.len() == root.len() || path[root.len() as int] == '/' || (root.len() > 0
        && root.last() == '/'))
}

/// The depth of a path in the project tree rooted at `root`, as the scan
/// numbers it: the root is at depth 0, its entries at depth 1, theirs at
/// depth 2, and so on; `None` for a path outside the root.
pub open spec fn tree_depth(root: Seq<char>, path: Seq<char>) -> Option<nat> {
    if under_root(path, root) {
        Some(component_count(path.skip(root.len() as int)))
    } else {
        None
    }
}

/// The depth recorded for a re-indexed file: its depth in the project tree
/// rooted at `root` (see [`tree_depth`]).
pub fn path_depth(root: &str, path: &str) -> (d: Option<usize>)
    ensures
        match d {
            None => tree_depth(root@, path@) is None,
            Some(n) => tree_depth(root@, path@) == Some(n as nat),
        },
{
    let cs = chars_of(path);
    let rs = chars_of(root);
    if !has_prefix(cs.as_slice(), rs.as_slice()) {
        return None;
    }
    let k = rs.len();
    let inside = k == cs.len() || cs[k] == '/' || (k > 0 && rs[k - 1] == '/');
    if !inside {
        return None;
    }
    let rest = slice_chars(cs.as_slice(), k, cs.len());
    assert(rest@ =~= path@.skip(root@.len() as int));
    let mut d: usize = 0;
    let mut i: usize = 0;
    while i < rest.len()
        invariant
            i <= rest@.len(),
            d <= i,
            d == component_count(rest@.take(i as int)),
        decreases rest@.len() - i,
    {
        assert(rest@.take(i + 1).drop_last() =~= rest@.take(i as int));
        if i > 0 {
            assert(rest@.take(i + 1)[i - 1] == rest@[i - 1]);
        }
        if rest[i] != '/' && (i == 0 || rest[i - 1] == '/') {
            d = d + 1;
        }
        i = i + 1;
    }
    assert(rest@.take(i as int) =~= rest@);
    Some(d)
}

/// Whether a changed path is re-indexed: it must be a file in a known
/// language other than `unknown`.
pub fn should_rescan(is_file: bool, lang: Option<&str>) -> (b: bool)
    ensures
        b == (is_file && (lang matches Some(l) && l@ != "unknown"@)),
{
    is_file && crate::scanner::is_indexable(lang)
}

/// The kinds of file-system change the watcher tells apart.
#[derive(Clone, Copy, Debug, PartialEq, Eq, Structural)]
pub enum ChangeKind {
    Create,
    Modify,
    Other,
}

/// Whether a change is queued for re-indexing: a file was created or
/// modified.
pub fn triggers_rescan(kind: ChangeKind, is_file: bool) -> (b: bool)
    ensures
        b == ((kind == ChangeKind::Create || kind == ChangeKind::Modify) && is_file),
{
    match kind {
        ChangeKind::Create => is_file,
        ChangeKind::Modify => is_file,
        ChangeKind::Other => false,
    }
}

} // verus!
