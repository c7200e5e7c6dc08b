use crate::local_embed::{hash_str, str_hash};
use vstd::bytes::*;
use vstd::prelude::*;

verus! {

/// A point of the structural code map.
///
/// Each coordinate holds the IEEE-754 bit pattern of the single-precision
/// value it stands for (`f32::to_bits`), so that the twelve-byte encoding
/// stored alongside every node is exact in both directions.
#[derive(Clone, Copy, Debug, PartialEq, Eq, Structural)]
pub struct Position3D {
    pub x: u32,
    pub y: u32,
    pub z: u32,
}

/// The little-endian encoding of a position: x, then y, then z.
pub open spec fn position_bytes(p: Position3D) -> Seq<u8> {
    spec_u32_to_le_bytes(p.x) + spec_u32_to_le_bytes(p.y) + spec_u32_to_le_bytes(p.z)
}

/// What a byte string decodes to: nothing unless it is exactly twelve bytes long.
pub open spec fn decode_position(b: Seq<u8>) -> Option<Position3D> {
    if b.len() != 12 {
        None
    } else {
        Some(
            Position3D {
                x: spec_u32_from_le_bytes(b.subrange(0, 4)),
                y: spec_u32_from_le_bytes(b.subrange(4, 8)),
                z: spec_u32_from_le_bytes(b.subrange(8, 12)),
            },
        )
    }
}

impl Position3D {
    /// Twelve little-endian bytes: x, y, z.
    pub fn to_bytes(&self) -> (bytes: Vec<u8>)
        ensures
            bytes@ == position_bytes(*self),
            bytes@.len() == 12,
    {
        proof {
            lemma_auto_spec_u32_to_from_le_bytes();
        }
        let mut bytes = u32_to_le_bytes(self.x);
        let mut ys = u32_to_le_bytes(self.y);
        let mut zs = u32_to_le_bytes(self.z);
        bytes.append(&mut ys);
        bytes.append(&mut zs);
        bytes
    }

    /// Decodes twelve little-endian bytes; any other length gives `None`.
    pub fn from_bytes(bytes: &[u8]) -> (r: Option<Position3D>)
        ensures
            r == decode_position(bytes@),
    {
        if bytes.len() != 12 {
            return None;
        }
        let x = u32_from_le_bytes(slice_range(bytes, 0, 4).as_slice());
        let y = u32_from_le_bytes(slice_range(bytes, 4, 8).as_slice());
        let z = u32_from_le_bytes(slice_range(bytes, 8, 12).as_slice());
        Some(Position3D { x, y, z })
    }
}

/// Copies `bytes[start..end]` into a new vector.
fn slice_range(bytes: &[u8], start: usize, end: usize) -> (r: Vec<u8>)
    requires
        start <= end <= bytes@.len(),
    ensures
        r@ == bytes@.subrange(start as int, end as int),
{
    let mut r: Vec<u8> = Vec::new();
    let mut i: usize = start;
    while i < end
        invariant
            start <= i <= end <= bytes@.len(),
            r@ == bytes@.subrange(start as int, i as int),
        decreases end - i,
    {
        r.push(bytes[i]);
        i = i + 1;
    }
    r
}

/// Decoding the encoding of a position gives the position back.
pub proof fn lemma_position_roundtrip(p: Position3D)
    ensures
        decode_position(position_bytes(p)) == Some(p),
{
    lemma_auto_spec_u32_to_from_le_bytes();
    let b = position_bytes(p);
    assert(b.subrange(0, 4) =~= spec_u32_to_le_bytes(p.x));
    assert(b.subrange(4, 8) =~= spec_u32_to_le_bytes(p.y));
    assert(b.subrange(8, 12) =~= spec_u32_to_le_bytes(p.z));
}

/// Every twelve-byte string is the encoding of the position it decodes to.
pub proof fn lemma_position_bytes_canonical(b: Seq<u8>)
    requires
        b.len() == 12,
    ensures
        decode_position(b) matches Some(p) && position_bytes(p) == b,
{
    lemma_auto_spec_u32_to_from_le_bytes();
    let p = decode_position(b)->0;
    assert(spec_u32_to_le_bytes(p.x) == b.subrange(0, 4));
    assert(spec_u32_to_le_bytes(p.y) == b.subrange(4, 8));
    assert(spec_u32_to_le_bytes(p.z) == b.subrange(8, 12));
    assert(position_bytes(p) =~= b);
}

/// Places files on the map from hashes of their paths, so that a file keeps
/// its place when others are added or removed.
pub struct StablePositioner;

impl StablePositioner {
    /// The place of a project's root: `x = y = 0.5`, `z = 0`.
    pub fn root_position() -> (p: Position3D)
        ensures
            p.x == 0x3f00_0000u32,
            p.y == 0x3f00_0000u32,
            p.z == 0u32,
    {
        Position3D { x: 0x3f00_0000, y: 0x3f00_0000, z: 0 }
    }
}

/// The 53 high bits of the `DefaultHasher` hash of a path: the numerator
/// of the path's place in `[0, 1)` over `2^53`.
pub open spec fn stable_hash_spec(input: Seq<char>) -> u64 {
    str_hash(input) >> 11u64
}

/// The hash bits of a path (see [`stable_hash_spec`]); the same path always
/// gives the same bits, and they stay below `2^53`.
pub fn stable_hash_bits(input: &str) -> (h: u64)
    ensures
        h == stable_hash_spec(input@),
        h < 0x20_0000_0000_0000u64,
{
    let full = hash_str(input);
    let h = full >> 11u64;
    assert(full >> 11u64 < 0x20_0000_0000_0000u64) by (bit_vector);
    h
}

/// The nodes that dependencies link `n` to, in the order of the
/// dependencies: the target of each dependency from `n`, the source of each
/// dependency to `n`.
pub open spec fn neighbors_spec(deps: Seq<(i64, i64)>, n: i64) -> Seq<i64>
    decreases deps.len(),
{
    if deps.len() == 0 {
        seq![]
    } else {
        let d = deps.last();
        neighbors_spec(deps.drop_last(), n) + (if d.0 == n {
            seq![d.1]
        } else {
            seq![]
        }) + (if d.1 == n {
            seq![d.0]
        } else {
            seq![]
        })
    }
}

/// The neighbours of a node (see [`neighbors_spec`]).
pub fn neighbors_of(dependencies: &[(i64, i64)], n: i64) -> (r: Vec<i64>)
    ensures
        r@ == neighbors_spec(dependencies@, n),
{
    let mut r: Vec<i64> = Vec::new();
    let mut k: usize = 0;
    while k < dependencies.len()
        invariant
            k <= dependencies@.len(),
            r@ == neighbors_spec(dependencies@.take(k as int), n),
        decreases dependencies@.len() - k,
    {
        let (a, b) = dependencies[k];
        assert(dependencies@.take(k + 1).drop_last() =~= dependencies@.take(k as int));
        let ghost before = r@;
        if a == n {
            r.push(b);
        }
        if b == n {
            r.push(a);
        }
        assert(r@ =~= neighbors_spec(dependencies@.take(k + 1), n));
        k = k + 1;
    }
    assert(dependencies@.take(k as int) =~= dependencies@);
    r
}

/// Whether a dependency links `a` and `b` (in either direction).
pub fn linked(dependencies: &[(i64, i64)], a: i64, b: i64) -> (r: bool)
    ensures
        r == neighbors_spec(dependencies@, a).contains(b),
{
    let ns = neighbors_of(dependencies, a);
    let mut i: usize = 0;
    while i < ns.len()
        invariant
            i <= ns@.len(),
            ns@ == neighbors_spec(dependencies@, a),
            forall|j: int| 0 <= j < i ==> ns@[j] != b,
        decreases ns@.len() - i,
    {
        if ns[i] == b {
            return true;
        }
        i = i + 1;
    }
    false
}

proof fn lemma_neighbors_contains(deps: Seq<(i64, i64)>, a: i64, b: i64)
    ensures
        neighbors_spec(deps, a).contains(b) <==> exists|k: int|
            0 <= k < deps.len() && (deps[k] == (a, b) || deps[k] == (b, a)),
    decreases deps.len(),
{
    if deps.len() > 0 {
        let init = deps.drop_last();
        lemma_neighbors_contains(init, a, b);
        let d = deps.last();
        let s0 = neighbors_spec(init, a);
        let s1 = if d.0 == a {
            seq![d.1]
        } else {
            seq![]
        };
        let s2 = if d.1 == a {
            seq![d.0]
        } else {
            seq![]
        };
        assert(neighbors_spec(deps, a) == s0 + s1 + s2);
        if neighbors_spec(deps, a).contains(b) {
            let i = choose|i: int| 0 <= i < (s0 + s1 + s2).len() && (s0 + s1 + s2)[i] == b;
            if i < s0.len() {
                assert(s0[i] == b);
                let k = choose|k: int|
                    0 <= k < init.len() && (init[k] == (a, b) || init[k] == (b, a));
                assert(deps[k] == init[k]);
            } else {
                assert(deps[deps.len() - 1] == d);
            }
        }
        if exists|k: int| 0 <= k < deps.len() && (deps[k] == (a, b) || deps[k] == (b, a)) {
            let k = choose|k: int| 0 <= k < deps.len() && (deps[k] == (a, b) || deps[k] == (b, a));
            if k < init.len() {
                assert(init[k] == deps[k]);
                let i = choose|i: int| 0 <= i < s0.len() && s0[i] == b;
                assert((s0 + s1 + s2)[i] == b);
            } else {
                assert(deps[k] == d);
                if d == (a, b) {
                    assert((s0 + s1 + s2)[s0.len() as int] == b);
                } else {
                    assert(d == (b, a));
                    assert((s0 + s1 + s2)[(s0.len() + s1.len()) as int] == b);
                }
            }
        }
    }
}

/// Links between nodes go both ways: `b` is a neighbour of `a` exactly when
/// `a` is a neighbour of `b`, so attraction and repulsion treat a pair alike.
pub proof fn lemma_neighbors_symmetric(deps: Seq<(i64, i64)>, a: i64, b: i64)
    ensures
        neighbors_spec(deps, a).contains(b) == neighbors_spec(deps, b).contains(a),
{
    lemma_neighbors_contains(deps, a, b);
    lemma_neighbors_contains(deps, b, a);
}

/// The force-directed refinement moves nodes only when there are at least
/// two of them and at least one dependency.
pub fn layout_applies(node_count: usize, dependency_count: usize) -> (b: bool)
    ensures
        b == (node_count >= 2 && dependency_count > 0),
{
    node_count >= 2 && dependency_count > 0
}

} // verus!
