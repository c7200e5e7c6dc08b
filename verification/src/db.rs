use crate::text::{chars_eq, chars_of, has_prefix, push_all, starts_with, string_of};
use vstd::bytes::*;
use vstd::prelude::*;

verus! {

/// The stored form of a vector whose components are given by their IEEE-754
/// bit patterns: four little-endian bytes per component.
pub open spec fn encode_bits(v: Seq<u32>) -> Seq<u8>
    decreases v.len(),
{
    if v.len() == 0 {
        seq![]
    } else {
        encode_bits(v.drop_last()) + spec_u32_to_le_bytes(v.last())
    }
}

/// The components stored in a blob: one per whole group of four bytes;
/// trailing bytes that do not fill a group are ignored.
pub open spec fn decode_bits(b: Seq<u8>) -> Seq<u32> {
    Seq::new(b.len() / 4, |i: int| spec_u32_from_le_bytes(b.subrange(4 * i, 4 * i + 4)))
}

/// Encodes a vector for storage (see [`encode_bits`]).
pub fn encode_vector(v: &[u32]) -> (b: Vec<u8>)
    ensures
        b@ == encode_bits(v@),
{
    let mut b: Vec<u8> = Vec::new();
    let mut i: usize = 0;
    while i < v.len()
        invariant
            i <= v@.len(),
            b@ == encode_bits(v@.take(i as int)),
        decreases v@.len() - i,
    {
        let mut four = u32_to_le_bytes(v[i]);
        b.append(&mut four);
        i = i + 1;
        assert(v@.take(i as int).drop_last() =~= v@.take((i - 1) as int));
    }
    assert(v@.take(i as int) =~= v@);
    b
}

/// Decodes a stored blob (see [`decode_bits`]).
pub fn decode_vector(b: &[u8]) -> (v: Vec<u32>)
    ensures
        v@ == decode_bits(b@),
{
    let n = b.len() / 4;
    let mut v: Vec<u32> = Vec::new();
    let mut i: usize = 0;
    while i < n
        invariant
            n == b@.len() / 4,
            b@.len() == b.len(),
            i <= n,
            v@ == decode_bits(b@).take(i as int),
        decreases n - i,
    {
        assert(4 * i + 4 <= b@.len()) by (nonlinear_arith)
            requires
                i < n,
                n == b@.len() / 4,
        ;
        let mut four: Vec<u8> = Vec::new();
        four.push(b[4 * i]);
        four.push(b[4 * i + 1]);
        four.push(b[4 * i + 2]);
        four.push(b[4 * i + 3]);
        assert(four@ =~= b@.subrange(4 * i, 4 * i + 4));
        v.push(u32_from_le_bytes(four.as_slice()));
        i = i + 1;
        assert(v@ =~= decode_bits(b@).take(i as int));
    }
    assert(decode_bits(b@).take(n as int) =~= decode_bits(b@));
    v
}

proof fn lemma_encode_bits_shape(v: Seq<u32>)
    ensures
        encode_bits(v).len() == 4 * v.len(),
        forall|i: int|
            0 <= i < v.len() ==> #[trigger] encode_bits(v).subrange(4 * i, 4 * i + 4)
                == spec_u32_to_le_bytes(v[i]),
    decreases v.len(),
{
    lemma_auto_spec_u32_to_from_le_bytes();
    if v.len() > 0 {
        let w = v.drop_last();
        lemma_encode_bits_shape(w);
        let e = encode_bits(v);
        assert forall|i: int| 0 <= i < v.len() implies #[trigger] e.subrange(4 * i, 4 * i + 4)
            == spec_u32_to_le_bytes(v[i]) by {
            if i < w.len() {
                assert(e.subrange(4 * i, 4 * i + 4) =~= encode_bits(w).subrange(4 * i, 4 * i + 4));
            } else {
                assert(e.subrange(4 * i, 4 * i + 4) =~= spec_u32_to_le_bytes(v.last()));
            }
        }
    }
}

/// Decoding the stored form of a vector gives the vector back.
pub proof fn lemma_vector_roundtrip(v: Seq<u32>)
    ensures
        decode_bits(encode_bits(v)) == v,
{
    lemma_auto_spec_u32_to_from_le_bytes();
    lemma_encode_bits_shape(v);
    let d = decode_bits(encode_bits(v));
    assert forall|i: int| 0 <= i < v.len() implies d[i] == v[i] by {
        assert(encode_bits(v).subrange(4 * i, 4 * i + 4) == spec_u32_to_le_bytes(v[i]));
    }
    assert(d =~= v);
}

/// Encoding what a blob decodes to gives back the blob without its
/// incomplete trailing group.
pub proof fn lemma_blob_canonical(b: Seq<u8>)
    ensures
        encode_bits(decode_bits(b)) == b.take((4 * (b.len() / 4)) as int),
{
    lemma_auto_spec_u32_to_from_le_bytes();
    let d = decode_bits(b);
    lemma_encode_bits_shape(d);
    let e = encode_bits(d);
    let t = b.take((4 * (b.len() / 4)) as int);
    assert forall|k: int| 0 <= k < e.len() implies e[k] == t[k] by {
        let i = k / 4;
        assert(0 <= i < d.len());
        assert(e.subrange(4 * i, 4 * i + 4) == spec_u32_to_le_bytes(d[i]));
        assert(spec_u32_to_le_bytes(spec_u32_from_le_bytes(b.subrange(4 * i, 4 * i + 4)))
            == b.subrange(4 * i, 4 * i + 4));
        assert(e[k] == e.subrange(4 * i, 4 * i + 4)[k - 4 * i]);
        assert(b[k] == b.subrange(4 * i, 4 * i + 4)[k - 4 * i]);
    }
    assert(e =~= t);
}

/// Whether a path and a project root lie on one line: either is a prefix of
/// the other.
pub open spec fn related_paths(path: Seq<char>, root: Seq<char>) -> bool {
    starts_with(path, root) || starts_with(root, path)
}

/// Index of the first project, in the order given, whose root is related to
/// the path; `rows.len()` when there is none.
pub open spec fn first_related(path: Seq<char>, rows: Seq<(i64, Seq<char>)>) -> int
    decreases rows.len(),
{
    if rows.len() == 0 {
        0
    } else if related_paths(path, rows[0].1) {
        0
    } else {
        1 + first_related(path, rows.drop_first())
    }
}

/// The (id, root) rows of projects with roots as text.
pub open spec fn row_views(rows: Seq<(i64, String)>) -> Seq<(i64, Seq<char>)> {
    rows.map_values(|r: (i64, String)| (r.0, r.1@))
}

/// The project that a path belongs to by prefix: the first project, in the
/// order given (longest root first), whose root is a prefix of the path or
/// has the path as a prefix.
pub fn project_by_prefix(path: &str, rows: &[(i64, String)]) -> (r: Option<i64>)
    ensures
        ({
            let k = first_related(path@, row_views(rows@));
            match r {
                Some(id) => k < rows@.len() && id == rows@[k].0,
                None => k == rows@.len(),
            }
        }),
{
    let p = chars_of(path);
    let ghost rv = row_views(rows@);
    let mut i: usize = 0;
    assert(rv.skip(0) =~= rv);
    while i < rows.len()
        invariant
            i <= rows@.len(),
            p@ == path@,
            rv == row_views(rows@),
            first_related(path@, rv) == i + first_related(path@, rv.skip(i as int)),
        decreases rows@.len() - i,
    {
        let root = chars_of(rows[i].1.as_str());
        let rel = has_prefix(p.as_slice(), root.as_slice()) || has_prefix(
            root.as_slice(),
            p.as_slice(),
        );
        assert(rv.skip(i as int)[0] == rv[i as int]);
        if rel {
            return Some(rows[i].0);
        }
        assert(rv.skip(i as int).drop_first() =~= rv.skip(i + 1));
        i = i + 1;
    }
    None
}

/// The ids of the indexed files whose path is not among the existing paths,
/// in the order given.
pub open spec fn missing_ids(
    indexed: Seq<(i64, Seq<char>)>,
    existing: Seq<Seq<char>>,
) -> Seq<i64>
    decreases indexed.len(),
{
    if indexed.len() == 0 {
        seq![]
    } else {
        missing_ids(indexed.drop_last(), existing) + if existing.contains(indexed.last().1) {
            seq![]
        } else {
            seq![indexed.last().0]
        }
    }
}

/// The ids of indexed files that are no longer on disk (see [`missing_ids`]).
pub fn nodes_missing_on_disk(indexed: &[(i64, String)], existing: &[String]) -> (r: Vec<i64>)
    ensures
        r@ == missing_ids(row_views(indexed@), existing.deep_view()),
{
    let ghost iv = row_views(indexed@);
    let ghost ev = existing.deep_view();
    let mut r: Vec<i64> = Vec::new();
    let mut i: usize = 0;
    while i < indexed.len()
        invariant
            i <= indexed@.len(),
            iv == row_views(indexed@),
            ev == existing.deep_view(),
            r@ == missing_ids(iv.take(i as int), ev),
        decreases indexed@.len() - i,
    {
        let p = chars_of(indexed[i].1.as_str());
        let mut found = false;
        let mut j: usize = 0;
        while j < existing.len()
            invariant
                j <= existing@.len(),
                i < indexed@.len(),
                ev == existing.deep_view(),
                p@ == indexed@[i as int].1@,
                found <==> exists|q: int| 0 <= q < j && ev[q] == p@,
            decreases existing@.len() - j,
        {
            let e = chars_of(existing[j].as_str());
            assert(ev[j as int] == existing@[j as int]@);
            if chars_eq(e.as_slice(), p.as_slice()) {
                found = true;
            }
            j = j + 1;
        }
        assert(found <==> ev.contains(p@));
        if !found {
            r.push(indexed[i].0);
        }
        i = i + 1;
        assert(iv.take(i as int).drop_last() =~= iv.take((i - 1) as int));
        assert(r@ =~= missing_ids(iv.take(i as int), ev));
    }
    assert(iv.take(i as int) =~= iv);
    r
}

/// `ids` without any occurrence of `e`, in order.
pub open spec fn without(ids: Seq<i64>, e: i64) -> Seq<i64>
    decreases ids.len(),
{
    if ids.len() == 0 {
        seq![]
    } else {
        without(ids.drop_last(), e) + if ids.last() == e {
            seq![]
        } else {
            seq![ids.last()]
        }
    }
}

/// `ids` without `exclude`, when one is given.
pub fn exclude_id(ids: Vec<i64>, exclude: Option<i64>) -> (r: Vec<i64>)
    ensures
        r@ == (match exclude {
            Some(e) => without(ids@, e),
            None => ids@,
        }),
{
    match exclude {
        None => ids,
        Some(e) => {
            let mut r: Vec<i64> = Vec::new();
            let mut i: usize = 0;
            while i < ids.len()
                invariant
                    i <= ids@.len(),
                    r@ == without(ids@.take(i as int), e),
                decreases ids@.len() - i,
            {
                proof {
                    assert(ids@.take(i + 1).drop_last() =~= ids@.take(i as int));
                }
                if ids[i] != e {
                    r.push(ids[i]);
                }
                i = i + 1;
                assert(r@ =~= without(ids@.take(i as int), e));
            }
            assert(ids@.take(i as int) =~= ids@);
            r
        },
    }
}

/// The `LIKE` pattern that finds names containing `query`: `%query%`.
pub fn like_pattern(query: &str) -> (p: String)
    ensures
        p@ == seq!['%'] + query@ + seq!['%'],
{
    let mut v: Vec<char> = Vec::new();
    v.push('%');
    let q = chars_of(query);
    push_all(&mut v, q.as_slice());
    v.push('%');
    assert(v@ =~= seq!['%'] + query@ + seq!['%']);
    string_of(v.as_slice())
}

} // verus!
