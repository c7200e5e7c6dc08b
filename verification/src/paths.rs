use crate::text::{chars_eq, chars_of, has_prefix, slice_chars, starts_with, string_of};
use vstd::prelude::*;

verus! {

/// `s` with every backslash turned into a forward slash.
pub open spec fn forward_slashes(s: Seq<char>) -> Seq<char> {
    s.map_values(|c: char| if c == '\\' { '/' } else { c })
}

/// `s` without every leading repetition of `p` (`str::trim_start_matches`).
pub open spec fn strip_leading(s: Seq<char>, p: Seq<char>) -> Seq<char>
    decreases s.len(),
{
    if p.len() > 0 && starts_with(s, p) {
        strip_leading(s.skip(p.len() as int), p)
    } else {
        s
    }
}

/// The long-path marker `//?/` once backslashes are forward slashes.
pub open spec fn slash_marker() -> Seq<char> {
    seq!['/', '/', '?', '/']
}

/// The Windows long-path marker `\\?\`.
pub open spec fn backslash_marker() -> Seq<char> {
    seq!['\\', '\\', '?', '\\']
}

/// A path written with forward slashes and without the Windows long-path
/// marker in front.
pub open spec fn normalized(s: Seq<char>) -> Seq<char> {
    strip_leading(strip_leading(forward_slashes(s), slash_marker()), backslash_marker())
}

fn strip_leading_exec(s: &[char], p: &[char]) -> (t: Vec<char>)
    ensures
        t@ == strip_leading(s@, p@),
{
    let mut i: usize = 0;
    let mut rest = slice_chars(s, 0, s.len());
    assert(s@.subrange(0, s@.len() as int) =~= s@);
    while p.len() > 0 && has_prefix(rest.as_slice(), p)
        invariant
            i <= s@.len(),
            s@.len() == s.len(),
            rest@ == s@.skip(i as int),
            strip_leading(s@, p@) == strip_leading(rest@, p@),
        decreases s@.len() - i,
    {
        assert(rest@.skip(p@.len() as int) =~= s@.skip(i + p@.len()));
        assert(i + p@.len() <= s@.len());
        i = i + p.len();
        rest = slice_chars(s, i, s.len());
    }
    rest
}

/// Normalises a path: backslashes become `/` and a leading Windows long-path
/// marker is dropped.
pub fn normalize_path(p: &str) -> (r: String)
    ensures
        r@ == normalized(p@),
{
    let cs = chars_of(p);
    let mut fw: Vec<char> = Vec::new();
    let mut i: usize = 0;
    while i < cs.len()
        invariant
            i <= cs@.len(),
            cs@ == p@,
            fw@ == forward_slashes(p@).take(i as int),
        decreases cs@.len() - i,
    {
        let c = cs[i];
        fw.push(if c == '\\' { '/' } else { c });
        i = i + 1;
        assert(fw@ =~= forward_slashes(p@).take(i as int));
    }
    assert(fw@ =~= forward_slashes(p@));
    let once = strip_leading_exec(fw.as_slice(), &['/', '/', '?', '/']);
    let twice = strip_leading_exec(once.as_slice(), &['\\', '\\', '?', '\\']);
    string_of(twice.as_slice())
}


/// `s` holds no backslash.
pub open spec fn no_backslash(s: Seq<char>) -> bool {
    forall|i: int| 0 <= i < s.len() ==> s[i] != '\\'
}

proof fn lemma_strip_leading_facts(s: Seq<char>, p: Seq<char>)
    ensures
        no_backslash(s) ==> no_backslash(strip_leading(s, p)),
        !(p.len() > 0 && starts_with(strip_leading(s, p), p)),
    decreases s.len(),
{
    if p.len() > 0 && starts_with(s, p) {
        let t = s.skip(p.len() as int);
        if no_backslash(s) {
            assert forall|i: int| 0 <= i < t.len() implies t[i] != '\\' by {
                assert(t[i] == s[i + p.len()]);
            }
        }
        lemma_strip_leading_facts(t, p);
    }
}

/// A normalised path uses only forward slashes: no backslash is left.
pub proof fn lemma_normalized_has_no_backslash(s: Seq<char>)
    ensures
        no_backslash(normalized(s)),
{
    let fs = forward_slashes(s);
    assert(no_backslash(fs));
    lemma_strip_leading_facts(fs, slash_marker());
    lemma_strip_leading_facts(strip_leading(fs, slash_marker()), backslash_marker());
}

/// Normalising a normalised path changes nothing.
pub proof fn lemma_normalize_idempotent(s: Seq<char>)
    ensures
        normalized(normalized(s)) == normalized(s),
{
    let fs = forward_slashes(s);
    assert(no_backslash(fs));
    let u = strip_leading(fs, slash_marker());
    lemma_strip_leading_facts(fs, slash_marker());
    assert(!starts_with(u, backslash_marker())) by {
        if starts_with(u, backslash_marker()) {
            assert(u.take(4)[0] == u[0]);
            assert(u[0] != '\\');
        }
    }
    let t = strip_leading(u, backslash_marker());
    assert(t == u);
    assert(forward_slashes(t) =~= t);
    assert(strip_leading(t, slash_marker()) == t);
    assert(strip_leading(t, backslash_marker()) == t);
}

/// Index of the last occurrence of `c` in `s`, or `-1`.
pub open spec fn last_of(s: Seq<char>, c: char) -> int
    decreases s.len(),
{
    if s.len() == 0 {
        -1
    } else if s.last() == c {
        s.len() - 1
    } else {
        last_of(s.drop_last(), c)
    }
}

proof fn lemma_last_of_bounds(s: Seq<char>, c: char)
    ensures
        -1 <= last_of(s, c) < s.len(),
        last_of(s, c) >= 0 ==> s[last_of(s, c)] == c,
    decreases s.len(),
{
    if s.len() > 0 && s.last() != c {
        lemma_last_of_bounds(s.drop_last(), c);
    }
}

/// The last component of a `/`-separated path, skipping empty components and
/// `.` ones; `None` when none is left.
pub open spec fn last_component(s: Seq<char>) -> Option<Seq<char>>
    decreases s.len(),
{
    let k = last_of(s, '/');
    let piece = s.skip(k + 1);
    if piece.len() > 0 && piece != seq!['.'] {
        Some(piece)
    } else if k < 0 || k >= s.len() {
        None
    } else {
        last_component(s.take(k))
    }
}

/// The file name of a `/`-separated path as `Path::file_name` gives it: its
/// last component, unless that is `..` or there is none.
pub open spec fn file_name_of(path: Seq<char>) -> Option<Seq<char>> {
    match last_component(path) {
        Some(p) => if p == seq!['.', '.'] {
            None
        } else {
            Some(p)
        },
        None => None,
    }
}

/// The stem of a file name as `Path::file_stem` takes it: the name before
/// its last dot, or the whole name when it has no dot or only a leading one.
pub open spec fn stem_of_name(name: Seq<char>) -> Seq<char> {
    if last_of(name, '.') <= 0 {
        name
    } else {
        name.take(last_of(name, '.'))
    }
}

/// The stem of the file a `/`-separated path names.
pub open spec fn file_stem_of(path: Seq<char>) -> Option<Seq<char>> {
    match file_name_of(path) {
        Some(n) => Some(stem_of_name(n)),
        None => None,
    }
}

/// The index of the last `c` in the first `end` characters of `s`.
pub fn find_last(s: &[char], end: usize, c: char) -> (k: Option<usize>)
    requires
        end <= s@.len(),
    ensures
        match k {
            None => last_of(s@.take(end as int), c) == -1,
            Some(i) => last_of(s@.take(end as int), c) == i as int && i < end,
        },
{
    let mut j: usize = end;
    while j > 0
        invariant
            j <= end <= s@.len(),
            last_of(s@.take(end as int), c) == last_of(s@.take(j as int), c),
        decreases j,
    {
        assert(s@.take(j as int).drop_last() =~= s@.take(j - 1));
        if s[j - 1] == c {
            return Some(j - 1);
        }
        j = j - 1;
    }
    None
}

/// The file name of a path (see [`file_name_of`]).
pub fn file_name(path: &str) -> (r: Option<String>)
    ensures
        r.deep_view() == file_name_of(path@),
{
    let cs = chars_of(path);
    let mut end: usize = cs.len();
    assert(cs@.take(end as int) =~= cs@);
    loop
        invariant
            end <= cs@.len(),
            cs@ == path@,
            last_component(path@) == last_component(cs@.take(end as int)),
        decreases end,
    {
        let ghost t = cs@.take(end as int);
        let k = find_last(cs.as_slice(), end, '/');
        let lo: usize = match k {
            Some(i) => i + 1,
            None => 0,
        };
        let piece = slice_chars(cs.as_slice(), lo, end);
        assert(piece@ =~= t.skip(last_of(t, '/') + 1));
        let dot: &[char] = &['.'];
        assert(dot@ =~= seq!['.']);
        if piece.len() > 0 && !chars_eq(piece.as_slice(), dot) {
            if chars_eq(piece.as_slice(), &['.', '.']) {
                return None;
            }
            return Some(string_of(piece.as_slice()));
        }
        match k {
            None => {
                return None;
            },
            Some(i) => {
                assert(cs@.take(i as int) =~= t.take(i as int));
                end = i;
            },
        }
    }
}

/// The stem of a name (see [`stem_of_name`]).
pub fn name_stem(name: &str) -> (r: String)
    ensures
        r@ == stem_of_name(name@),
{
    let cs = chars_of(name);
    assert(cs@.take(cs@.len() as int) =~= cs@);
    match find_last(cs.as_slice(), cs.len(), '.') {
        Some(d) => {
            if d == 0 {
                string_of(cs.as_slice())
            } else {
                let t = slice_chars(cs.as_slice(), 0, d);
                assert(t@ =~= name@.take(d as int));
                string_of(t.as_slice())
            }
        },
        None => string_of(cs.as_slice()),
    }
}

/// The stem of the file a path names (see [`file_stem_of`]).
pub fn file_stem(path: &str) -> (r: Option<String>)
    ensures
        r.deep_view() == file_stem_of(path@),
{
    match file_name(path) {
        Some(n) => Some(name_stem(n.as_str())),
        None => None,
    }
}

} // verus!
