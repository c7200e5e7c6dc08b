use crate::embeddings::{replace_all, replace_chars};
use crate::paths::{file_name, file_name_of};
use crate::text::{chars_of, push_all, string_of};
use vstd::prelude::*;
use vstd::utf8::encode_utf8;

verus! {

/// Index of the first occurrence of `x` in `ids`, or `-1`.
pub open spec fn first_index(ids: Seq<i64>, x: i64) -> int
    decreases ids.len(),
{
    if ids.len() == 0 {
        -1
    } else if ids[0] == x {
        0
    } else if first_index(ids.drop_first(), x) == -1 {
        -1
    } else {
        1 + first_index(ids.drop_first(), x)
    }
}

/// How many dependency ends land on node `i`: each dependency counts once
/// for the node where its source is first listed and once for the node where
/// its target is first listed.
pub open spec fn degree(ids: Seq<i64>, deps: Seq<(i64, i64)>, i: int) -> nat
    decreases deps.len(),
{
    if deps.len() == 0 {
        0
    } else {
        degree(ids, deps.drop_last(), i) + (if first_index(ids, deps.last().0) == i {
            1nat
        } else {
            0nat
        }) + (if first_index(ids, deps.last().1) == i {
            1nat
        } else {
            0nat
        })
    }
}

proof fn lemma_first_index_bounds(ids: Seq<i64>, x: i64)
    ensures
        -1 <= first_index(ids, x) < ids.len(),
        first_index(ids, x) >= 0 ==> ids[first_index(ids, x)] == x,
        first_index(ids, x) >= 0 ==> forall|j: int|
            0 <= j < first_index(ids, x) ==> ids[j] != x,
        first_index(ids, x) == -1 ==> forall|j: int| 0 <= j < ids.len() ==> ids[j] != x,
    decreases ids.len(),
{
    if ids.len() > 0 {
        lemma_first_index_bounds(ids.drop_first(), x);
        if ids[0] != x {
            let f = first_index(ids.drop_first(), x);
            assert forall|j: int| 1 <= j < ids.len() && (f == -1 || j < f + 1) implies ids[j]
                != x by {
                assert(ids[j] == ids.drop_first()[j - 1]);
            }
        }
    }
}

/// The first position of `x` in `ids` (see [`first_index`]).
pub fn position_of(ids: &[i64], x: i64) -> (r: Option<usize>)
    ensures
        match r {
            Some(i) => first_index(ids@, x) == i && i < ids@.len(),
            None => first_index(ids@, x) == -1,
        },
{
    proof {
        lemma_first_index_bounds(ids@, x);
    }
    let mut i: usize = 0;
    while i < ids.len()
        invariant
            i <= ids@.len(),
            forall|j: int| 0 <= j < i ==> ids@[j] != x,
            -1 <= first_index(ids@, x) < ids@.len(),
            first_index(ids@, x) >= 0 ==> ids@[first_index(ids@, x)] == x,
            first_index(ids@, x) >= 0 ==> forall|j: int|
                0 <= j < first_index(ids@, x) ==> ids@[j] != x,
            first_index(ids@, x) == -1 ==> forall|j: int| 0 <= j < ids@.len() ==> ids@[j] != x,
        decreases ids@.len() - i,
    {
        if ids[i] == x {
            return Some(i);
        }
        i = i + 1;
    }
    None
}

/// The number of dependency ends on each node (see [`degree`]).
pub fn count_dep_degrees(ids: &[i64], dependencies: &[(i64, i64)]) -> (degrees: Vec<usize>)
    requires
        dependencies@.len() < usize::MAX / 2,
    ensures
        degrees@.len() == ids@.len(),
        forall|i: int| 0 <= i < ids@.len() ==> degrees@[i] == degree(ids@, dependencies@, i),
{
    let mut degrees: Vec<usize> = Vec::new();
    let mut i: usize = 0;
    while i < ids.len()
        invariant
            i <= ids@.len(),
            degrees@.len() == i,
            forall|j: int| 0 <= j < i ==> degrees@[j] == 0,
        decreases ids@.len() - i,
    {
        degrees.push(0);
        i = i + 1;
    }
    let mut k: usize = 0;
    while k < dependencies.len()
        invariant
            k <= dependencies@.len(),
            dependencies@.len() < usize::MAX / 2,
            degrees@.len() == ids@.len(),
            forall|j: int|
                0 <= j < ids@.len() ==> degrees@[j] == degree(
                    ids@,
                    dependencies@.take(k as int),
                    j,
                ) && degrees@[j] <= 2 * k,
        decreases dependencies@.len() - k,
    {
        let (src, dst) = dependencies[k];
        let ghost d0 = degrees@;
        let ghost prefix = dependencies@.take(k + 1);
        assert(prefix.drop_last() =~= dependencies@.take(k as int));
        assert(prefix.last() == (src, dst));
        let pa = position_of(ids, src);
        let pb = position_of(ids, dst);
        if let Some(a) = pa {
            let v = degrees[a];
            degrees.set(a, v + 1);
        }
        if let Some(b) = pb {
            let v = degrees[b];
            degrees.set(b, v + 1);
        }
        proof {
            assert forall|j: int| 0 <= j < ids@.len() implies degrees@[j] == degree(
                ids@,
                prefix,
                j,
            ) && degrees@[j] <= 2 * (k + 1) by {
                assert(d0[j] == degree(ids@, dependencies@.take(k as int), j));
            }
        }
        k = k + 1;
    }
    assert(dependencies@.take(k as int) =~= dependencies@);
    degrees
}

/// The endpoints of the dependencies whose source and target both are
/// nodes, as positions in `ids`, in the order of the dependencies.
pub open spec fn edge_positions(ids: Seq<i64>, deps: Seq<(i64, i64)>) -> Seq<(int, int)>
    decreases deps.len(),
{
    if deps.len() == 0 {
        seq![]
    } else {
        let a = first_index(ids, deps.last().0);
        let b = first_index(ids, deps.last().1);
        edge_positions(ids, deps.drop_last()) + if a >= 0 && b >= 0 {
            seq![(a, b)]
        } else {
            seq![]
        }
    }
}

/// The edges to draw (see [`edge_positions`]).
pub fn edge_pairs(ids: &[i64], dependencies: &[(i64, i64)]) -> (edges: Vec<(usize, usize)>)
    ensures
        edges@.map_values(|e: (usize, usize)| (e.0 as int, e.1 as int)) == edge_positions(
            ids@,
            dependencies@,
        ),
{
    let mut edges: Vec<(usize, usize)> = Vec::new();
    let mut k: usize = 0;
    while k < dependencies.len()
        invariant
            k <= dependencies@.len(),
            edges@.map_values(|e: (usize, usize)| (e.0 as int, e.1 as int)) == edge_positions(
                ids@,
                dependencies@.take(k as int),
            ),
        decreases dependencies@.len() - k,
    {
        let (src, dst) = dependencies[k];
        let ghost prefix = dependencies@.take(k + 1);
        assert(prefix.drop_last() =~= dependencies@.take(k as int));
        let a = position_of(ids, src);
        let b = position_of(ids, dst);
        match (a, b) {
            (Some(x), Some(y)) => {
                edges.push((x, y));
            },
            _ => {},
        }
        k = k + 1;
        assert(edges@.map_values(|e: (usize, usize)| (e.0 as int, e.1 as int)) =~= edge_positions(
            ids@,
            dependencies@.take(k as int),
        ));
    }
    assert(dependencies@.take(k as int) =~= dependencies@);
    edges
}

/// The largest degree, and at least 1 (also when there are no nodes).
pub fn max_degree(degrees: &[usize]) -> (m: usize)
    ensures
        m >= 1,
        forall|i: int| 0 <= i < degrees@.len() ==> degrees@[i] <= m,
        m == 1 || exists|i: int| 0 <= i < degrees@.len() && degrees@[i] == m,
{
    let mut m: usize = 1;
    let mut i: usize = 0;
    while i < degrees.len()
        invariant
            i <= degrees@.len(),
            m >= 1,
            forall|j: int| 0 <= j < i ==> degrees@[j] <= m,
            m == 1 || exists|j: int| 0 <= j < i && degrees@[j] == m,
        decreases degrees@.len() - i,
    {
        if degrees[i] > m {
            m = degrees[i];
        }
        i = i + 1;
    }
    m
}

/// The label drawn for a node: names longer than 20 bytes are cut to their
/// first 17 bytes followed by `...`.
pub fn node_label(name: &str) -> (l: String)
    requires
        encode_utf8(name@).len() > 20 ==> vstd::utf8::is_char_boundary(encode_utf8(name@), 17),
    ensures
        encode_utf8(name@).len() <= 20 ==> l@ == name@,
        encode_utf8(name@).len() > 20 ==> encode_utf8(l@) == encode_utf8(name@).take(17) + seq![
            46u8,
            46u8,
            46u8,
        ],
{
    if name.as_bytes().len() <= 20 {
        return name.to_owned();
    }
    let (head, _) = name.split_at(17);
    let mut v = chars_of(head);
    v.push('.');
    v.push('.');
    v.push('.');
    proof {
        lemma_encode_append_dots(head@);
        assert(v@ =~= head@ + seq!['.', '.', '.']);
        assert(encode_utf8(name@).take(17) =~= encode_utf8(name@).subrange(0, 17));
    }
    string_of(v.as_slice())
}

proof fn lemma_encode_append_dots(s: Seq<char>)
    ensures
        encode_utf8(s + seq!['.', '.', '.']) == encode_utf8(s) + seq![46u8, 46u8, 46u8],
{
    lemma_encode_concat(s, seq!['.', '.', '.']);
    let t = seq!['.', '.', '.'];
    assert(vstd::utf8::is_ascii_chars(t));
    vstd::utf8::is_ascii_chars_encode_utf8(t);
    assert(encode_utf8(t) =~= seq![46u8, 46u8, 46u8]);
}

/// UTF-8 encoding distributes over concatenation.
pub proof fn lemma_encode_concat(a: Seq<char>, b: Seq<char>)
    ensures
        encode_utf8(a + b) == encode_utf8(a) + encode_utf8(b),
    decreases a.len(),
{
    if a.len() == 0 {
        assert(a + b =~= b);
    } else {
        lemma_encode_concat(a.drop_first(), b);
        assert((a + b).drop_first() =~= a.drop_first() + b);
        assert((a + b)[0] == a[0]);
    }
}

/// The link a node opens: `file:///` and the path with spaces as `%20`.
pub open spec fn file_url_spec(path: Seq<char>) -> Seq<char> {
    seq!['f', 'i', 'l', 'e', ':', '/', '/', '/'] + replace_all(path, seq![' '], seq!['%', '2', '0'])
}

/// The link a node opens (see [`file_url_spec`]).
pub fn file_url(path: &str) -> (u: String)
    ensures
        u@ == file_url_spec(path@),
{
    let p = chars_of(path);
    let sp: &[char] = &[' '];
    assert(sp@ =~= seq![' ']);
    let r = replace_chars(p.as_slice(), sp, &['%', '2', '0']);
    let mut v: Vec<char> = Vec::new();
    push_all(&mut v, &['f', 'i', 'l', 'e', ':', '/', '/', '/']);
    push_all(&mut v, r.as_slice());
    string_of(v.as_slice())
}

/// The name drawn for a node: the file name of its path, or `root` when
/// the path names none.
pub open spec fn node_name_spec(path: Seq<char>) -> Seq<char> {
    match file_name_of(path) {
        Some(n) => n,
        None => "root"@,
    }
}

/// The name drawn for a node (see [`node_name_spec`]).
pub fn node_name(path: &str) -> (n: String)
    ensures
        n@ == node_name_spec(path@),
{
    match file_name(path) {
        Some(n) => n,
        None => "root".to_owned(),
    }
}

/// Every edge drawn in the graph is counted in the degrees of both of its
/// end nodes: each of them has a degree of at least one.
pub proof fn lemma_edges_count_in_degrees(ids: Seq<i64>, deps: Seq<(i64, i64)>, a: int, b: int)
    requires
        edge_positions(ids, deps).contains((a, b)),
    ensures
        degree(ids, deps, a) >= 1,
        degree(ids, deps, b) >= 1,
    decreases deps.len(),
{
    let init = deps.drop_last();
    let d = deps.last();
    let fa = first_index(ids, d.0);
    let fb = first_index(ids, d.1);
    let head = edge_positions(ids, init);
    let tail: Seq<(int, int)> = if fa >= 0 && fb >= 0 {
        seq![(fa, fb)]
    } else {
        seq![]
    };
    assert(edge_positions(ids, deps) == head + tail);
    let k = choose|k: int| 0 <= k < (head + tail).len() && (head + tail)[k] == (a, b);
    if k < head.len() {
        assert(head[k] == (a, b));
        lemma_edges_count_in_degrees(ids, init, a, b);
    } else {
        assert(tail[k - head.len()] == (a, b));
        assert(fa == a && fb == b);
    }
}

} // verus!
