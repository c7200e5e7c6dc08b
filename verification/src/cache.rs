use std::collections::HashMap;
use vstd::prelude::*;
use vstd::std_specs::hash::spec_hash_map_iter;
use vstd::std_specs::iter::IteratorSpec;

verus! {

broadcast use vstd::std_specs::hash::group_hash_axioms;

/// The project with the fewest hits in a cache, if any.
fn min_hits_key<T>(m: &HashMap<i64, (T, usize)>) -> (r: Option<i64>)
    ensures
        match r {
            None => m@.dom().len() == 0,
            Some(k) => m@.contains_key(k) && forall|j: i64| #[trigger]
                m@.contains_key(j) ==> m@[k].1 <= m@[j].1,
        },
{
    let ghost s = spec_hash_map_iter(m).remaining();
    let ghost mut seen: int = 0;
    let mut best: Option<(i64, usize)> = None;
    for entry in it: m.iter()
        invariant
            it.seq() == s,
            s == spec_hash_map_iter(m).remaining(),
            seen == it.index(),
            match best {
                None => seen == 0,
                Some(b) => m@.contains_key(b.0) && m@[b.0].1 == b.1 && forall|i: int|
                    0 <= i < seen ==> b.1 <= (#[trigger] s[i]).1.1,
            },
    {
        proof {
            seen = seen + 1;
        }
        let (k, v) = entry;
        match best {
            None => {
                best = Some((*k, v.1));
            },
            Some(b) => {
                if v.1 < b.1 {
                    best = Some((*k, v.1));
                }
            },
        }
    }
    assert(seen == s.len());
    match best {
        None => None,
        Some(b) => {
            proof {
                assert forall|j: i64| #[trigger] m@.contains_key(j) implies b.1 <= m@[j].1 by {
                    assert(s.contains((&j, &m@[j])));
                    let i = choose|i: int| 0 <= i < s.len() && s[i] == (&j, &m@[j]);
                    assert(b.1 <= s[i].1.1);
                }
            }
            Some(b.0)
        },
    }
}

/// A per-project cache with a fixed capacity. Each entry counts its hits;
/// when a new project must be stored in a full cache, an entry with the
/// fewest hits is evicted first.
pub struct ProjectCache<T> {
    map: HashMap<i64, (T, usize)>,
    capacity: usize,
}

impl<T> View for ProjectCache<T> {
    type V = Map<i64, (T, usize)>;

    /// Project id to (cached data, hit count).
    closed spec fn view(&self) -> Map<i64, (T, usize)> {
        self.map@
    }
}

/// What storing `data` for project `k` does to a cache of capacity `cap`
/// holding `b`, giving `a`: `k` now maps to the data with no hits; every
/// other project in `a` was in `b` unchanged; if `k` was cached or there was
/// room, nothing else is lost; otherwise exactly the projects other than
/// one with the fewest hits are kept.
pub open spec fn project_insert_ok<T>(
    b: Map<i64, (T, usize)>,
    a: Map<i64, (T, usize)>,
    k: i64,
    data: T,
    cap: nat,
) -> bool {
    &&& a.contains_key(k)
    &&& a[k] == (data, 0usize)
    &&& forall|j: i64|
        j != k && #[trigger] a.contains_key(j) ==> b.contains_key(j) && a[j] == b[j]
    &&& (b.contains_key(k) || b.dom().len() < cap) ==> forall|j: i64|
        j != k && #[trigger] b.contains_key(j) ==> a.contains_key(j)
    &&& (!b.contains_key(k) && b.dom().len() >= cap) ==> exists|e: i64|
        #![trigger b[e]]
        b.contains_key(e) && !a.contains_key(e) && (forall|j: i64|
            #[trigger] b.contains_key(j) ==> b[e].1 <= b[j].1) && (forall|j: i64|
            j != k && j != e && #[trigger] b.contains_key(j) ==> a.contains_key(j))
}

/// Storing data keeps a project cache within its capacity, and reading the
/// project back gives the data just stored.
pub proof fn lemma_project_insert_law<T>(
    b: Map<i64, (T, usize)>,
    a: Map<i64, (T, usize)>,
    k: i64,
    data: T,
    cap: nat,
)
    requires
        project_insert_ok(b, a, k, data, cap),
        b.dom().finite(),
        b.dom().len() <= cap,
    ensures
        a.dom().finite(),
        a.dom().len() <= cap,
        a.contains_key(k) && a[k].0 == data,
{
    let bk = b.dom().insert(k);
    assert(a.dom().subset_of(bk));
    vstd::set_lib::lemma_len_subset(a.dom(), bk);
    if b.contains_key(k) {
        assert(a.dom().subset_of(b.dom()));
        vstd::set_lib::lemma_len_subset(a.dom(), b.dom());
    } else if b.dom().len() < cap {
        assert(bk.len() == b.dom().len() + 1);
    } else {
        let e = choose|e: i64|
            #![trigger b[e]]
            b.contains_key(e) && !a.contains_key(e) && (forall|j: i64|
                #[trigger] b.contains_key(j) ==> b[e].1 <= b[j].1) && (forall|j: i64|
                j != k && j != e && #[trigger] b.contains_key(j) ==> a.contains_key(j));
        let rest = b.dom().remove(e).insert(k);
        assert(a.dom().subset_of(rest));
        assert(b.dom().remove(e).len() == b.dom().len() - 1);
        assert(rest.len() == b.dom().len());
        vstd::set_lib::lemma_len_subset(a.dom(), rest);
    }
}

impl<T> ProjectCache<T> {
    #[verifier::type_invariant]
    spec fn wf(self) -> bool {
        &&& self.map@.dom().len() <= self.capacity
        &&& self.capacity > 0
    }

    /// The most projects the cache holds at once.
    pub closed spec fn cap(&self) -> nat {
        self.capacity as nat
    }

    /// An empty cache for at most `capacity` projects.
    pub fn new(capacity: usize) -> (c: Self)
        requires
            capacity > 0,
        ensures
            c@ == Map::<i64, (T, usize)>::empty(),
            c.cap() == capacity,
    {
        ProjectCache { map: HashMap::new(), capacity }
    }

    /// Number of cached projects; never more than the capacity.
    pub fn len(&self) -> (n: usize)
        ensures
            n == self@.dom().len(),
            self@.dom().finite(),
            n <= self.cap(),
    {
        proof {
            use_type_invariant(self);
        }
        self.map.len()
    }

    /// The data cached for a project, if any.
    pub fn get(&self, k: i64) -> (r: Option<&T>)
        ensures
            match r {
                Some(d) => self@.contains_key(k) && *d == self@[k].0,
                None => !self@.contains_key(k),
            },
    {
        match self.map.get(&k) {
            Some(e) => Some(&e.0),
            None => None,
        }
    }

    /// Counts a hit on a cached project; says whether it was cached.
    pub fn hit(&mut self, k: i64) -> (found: bool)
        ensures
            found == old(self)@.contains_key(k),
            found ==> final(self)@ == old(self)@.insert(
                k,
                (old(self)@[k].0, old(self)@[k].1.wrapping_add(1)),
            ),
            !found ==> final(self)@ == old(self)@,
            final(self).cap() == old(self).cap(),
    {
        proof {
            use_type_invariant(&*self);
        }
        let ghost m0 = self.map@;
        let mut m: HashMap<i64, (T, usize)> = HashMap::new();
        std::mem::swap(&mut m, &mut self.map);
        let found = match m.remove(&k) {
            None => false,
            Some(e) => {
                let (data, hits) = e;
                m.insert(k, (data, hits.wrapping_add(1)));
                proof {
                    assert(m@ =~= m0.insert(k, (m0[k].0, m0[k].1.wrapping_add(1))));
                    assert(m@.dom() =~= m0.dom());
                }
                true
            },
        };
        proof {
            if !found {
                assert(m@ =~= m0);
            }
        }
        self.map = m;
        found
    }

    /// Stores data for a project with no hits yet. If the project is new and
    /// the cache is full, an entry with the fewest hits is evicted first.
    pub fn insert(&mut self, k: i64, data: T)
        ensures
            project_insert_ok(old(self)@, final(self)@, k, data, old(self).cap()),
            final(self).cap() == old(self).cap(),
    {
        proof {
            use_type_invariant(&*self);
        }
        let ghost m0 = self.map@;
        let mut m: HashMap<i64, (T, usize)> = HashMap::new();
        std::mem::swap(&mut m, &mut self.map);
        if !m.contains_key(&k) && m.len() >= self.capacity {
            match min_hits_key(&m) {
                Some(victim) => {
                    m.remove(&victim);
                    proof {
                        assert(m@ == m0.remove(victim));
                        assert(m@.dom().len() < self.capacity);
                    }
                    m.insert(k, (data, 0));
                    proof {
                        assert(m@ == m0.remove(victim).insert(k, (data, 0usize)));
                        assert(m0.contains_key(victim) && !m@.contains_key(victim));
                    }
                },
                None => {
                    m.insert(k, (data, 0));
                },
            }
        } else {
            proof {
                if !m0.contains_key(k) {
                    assert(m0.dom().len() < self.capacity);
                    assert(m0.insert(k, (data, 0usize)).dom() =~= m0.dom().insert(k));
                } else {
                    assert(m0.insert(k, (data, 0usize)).dom() =~= m0.dom());
                }
            }
            m.insert(k, (data, 0));
        }
        self.map = m;
    }

    /// Forgets a project.
    pub fn invalidate(&mut self, k: i64)
        ensures
            final(self)@ == old(self)@.remove(k),
            final(self).cap() == old(self).cap(),
    {
        proof {
            use_type_invariant(&*self);
        }
        let mut m: HashMap<i64, (T, usize)> = HashMap::new();
        std::mem::swap(&mut m, &mut self.map);
        m.remove(&k);
        proof {
            assert(m@.dom().subset_of(old(self)@.dom()));
            vstd::set_lib::lemma_len_subset(m@.dom(), old(self)@.dom());
        }
        self.map = m;
    }
}

/// The query texts of a list of query-cache entries.
pub open spec fn query_keys<T>(s: Seq<(String, T)>) -> Seq<Seq<char>> {
    s.map_values(|e: (String, T)| e.0@)
}

/// The map that a list of query-cache entries with distinct texts stands for.
pub open spec fn query_map<T>(s: Seq<(String, T)>) -> Map<Seq<char>, T> {
    Map::new(
        |k: Seq<char>| query_keys(s).contains(k),
        |k: Seq<char>|
            {
                let i = choose|i: int| 0 <= i < s.len() && s[i].0@ == k;
                s[i].1
            },
    )
}

proof fn lemma_query_at<T>(s: Seq<(String, T)>, i: int)
    requires
        query_keys(s).no_duplicates(),
        0 <= i < s.len(),
    ensures
        query_map(s).contains_key(s[i].0@),
        query_map(s)[s[i].0@] == s[i].1,
{
    assert(query_keys(s)[i] == s[i].0@);
    let j = choose|j: int| 0 <= j < s.len() && s[j].0@ == s[i].0@;
    assert(query_keys(s)[j] == s[j].0@);
}

proof fn lemma_query_contains<T>(s: Seq<(String, T)>, k: Seq<char>)
    ensures
        query_map(s).contains_key(k) <==> exists|i: int| 0 <= i < s.len() && s[i].0@ == k,
{
    if query_map(s).contains_key(k) {
        let i = choose|i: int| 0 <= i < query_keys(s).len() && query_keys(s)[i] == k;
        assert(s[i].0@ == k);
    }
    if exists|i: int| 0 <= i < s.len() && s[i].0@ == k {
        let i = choose|i: int| 0 <= i < s.len() && s[i].0@ == k;
        assert(query_keys(s)[i] == k);
    }
}

proof fn lemma_query_len<T>(s: Seq<(String, T)>)
    requires
        query_keys(s).no_duplicates(),
    ensures
        query_map(s).dom().finite(),
        query_map(s).dom().len() == s.len(),
{
    assert(query_map(s).dom() =~= query_keys(s).to_set());
    query_keys(s).unique_seq_to_set();
    vstd::seq_lib::seq_to_set_is_finite(query_keys(s));
}

proof fn lemma_query_update<T>(s: Seq<(String, T)>, i: int, e: (String, T))
    requires
        query_keys(s).no_duplicates(),
        0 <= i < s.len(),
        e.0@ == s[i].0@,
    ensures
        query_keys(s.update(i, e)) == query_keys(s),
        query_map(s.update(i, e)) == query_map(s).insert(e.0@, e.1),
{
    let t = s.update(i, e);
    assert(query_keys(t) =~= query_keys(s));
    assert forall|k: Seq<char>| #[trigger] query_map(t).contains_key(k) == query_map(s).insert(
        e.0@,
        e.1,
    ).contains_key(k) by {
        lemma_query_contains(t, k);
        lemma_query_contains(s, k);
        if k == e.0@ {
            assert(t[i].0@ == k);
        }
        if exists|j: int| 0 <= j < s.len() && s[j].0@ == k {
            let j = choose|j: int| 0 <= j < s.len() && s[j].0@ == k;
            assert(t[j].0@ == k);
        }
    }
    assert forall|k: Seq<char>| #[trigger] query_map(t).contains_key(k) implies query_map(t)[k]
        == query_map(s).insert(e.0@, e.1)[k] by {
        lemma_query_contains(t, k);
        let j = choose|j: int| 0 <= j < t.len() && t[j].0@ == k;
        lemma_query_at(t, j);
        if j != i {
            lemma_query_at(s, j);
            assert(query_keys(s)[j] == s[j].0@);
            assert(query_keys(s)[i] == s[i].0@);
        }
    }
    assert(query_map(t) =~= query_map(s).insert(e.0@, e.1));
}

proof fn lemma_query_push<T>(s: Seq<(String, T)>, e: (String, T))
    requires
        query_keys(s).no_duplicates(),
        !query_map(s).contains_key(e.0@),
    ensures
        query_keys(s.push(e)).no_duplicates(),
        query_map(s.push(e)) == query_map(s).insert(e.0@, e.1),
{
    let t = s.push(e);
    lemma_query_contains(s, e.0@);
    assert(query_keys(t) =~= query_keys(s).push(e.0@));
    assert forall|a: int, b: int|
        0 <= a < query_keys(t).len() && 0 <= b < query_keys(t).len() && a != b implies query_keys(
        t,
    )[a] != query_keys(t)[b] by {
        if a == s.len() {
            assert(s[b].0@ == query_keys(t)[b]);
        } else if b == s.len() {
            assert(s[a].0@ == query_keys(t)[a]);
        }
    }
    assert forall|k: Seq<char>| #[trigger] query_map(t).contains_key(k) == query_map(s).insert(
        e.0@,
        e.1,
    ).contains_key(k) by {
        lemma_query_contains(t, k);
        lemma_query_contains(s, k);
        if exists|j: int| 0 <= j < s.len() && s[j].0@ == k {
            let j = choose|j: int| 0 <= j < s.len() && s[j].0@ == k;
            assert(t[j].0@ == k);
        }
        if exists|j: int| 0 <= j < t.len() && t[j].0@ == k {
            let j = choose|j: int| 0 <= j < t.len() && t[j].0@ == k;
            if j < s.len() {
                assert(s[j].0@ == k);
            }
        }
        if k == e.0@ {
            assert(t[s.len() as int].0@ == k);
        }
    }
    assert forall|k: Seq<char>| #[trigger] query_map(t).contains_key(k) implies query_map(t)[k]
        == query_map(s).insert(e.0@, e.1)[k] by {
        lemma_query_contains(t, k);
        let j = choose|j: int| 0 <= j < t.len() && t[j].0@ == k;
        lemma_query_at(t, j);
        if j < s.len() {
            lemma_query_at(s, j);
        }
    }
    assert(query_map(t) =~= query_map(s).insert(e.0@, e.1));
}

/// Query vectors kept for at most 32 query texts; when a new entry must be
/// added to a full cache, the whole cache is cleared first.
pub struct QueryCache<T> {
    entries: Vec<(String, T)>,
}

impl<T> View for QueryCache<T> {
    type V = Map<Seq<char>, T>;

    /// Query text to cached value.
    closed spec fn view(&self) -> Map<Seq<char>, T> {
        query_map(self.entries@)
    }
}

impl<T> QueryCache<T> {
    #[verifier::type_invariant]
    spec fn wf(self) -> bool {
        &&& query_keys(self.entries@).no_duplicates()
        &&& self.entries@.len() <= 32
    }

    /// An empty cache.
    pub fn new() -> (c: Self)
        ensures
            c@ == Map::<Seq<char>, T>::empty(),
    {
        let c = QueryCache { entries: Vec::new() };
        assert(c@ =~= Map::<Seq<char>, T>::empty());
        c
    }

    /// Number of cached queries; never more than 32.
    pub fn len(&self) -> (n: usize)
        ensures
            n == self@.dom().len(),
            self@.dom().finite(),
            n <= 32,
    {
        proof {
            use_type_invariant(self);
            lemma_query_len(self.entries@);
        }
        self.entries.len()
    }

    fn find(&self, q: &str) -> (r: Option<usize>)
        ensures
            match r {
                Some(i) => i < self.entries@.len() && self.entries@[i as int].0@ == q@,
                None => !self@.contains_key(q@),
            },
    {
        let key = crate::text::chars_of(q);
        let mut i: usize = 0;
        while i < self.entries.len()
            invariant
                i <= self.entries@.len(),
                key@ == q@,
                forall|j: int| 0 <= j < i ==> self.entries@[j].0@ != q@,
            decreases self.entries@.len() - i,
        {
            let e = crate::text::chars_of(self.entries[i].0.as_str());
            if crate::text::chars_eq(e.as_slice(), key.as_slice()) {
                return Some(i);
            }
            i = i + 1;
        }
        proof {
            lemma_query_contains(self.entries@, q@);
        }
        None
    }

    /// The value cached for a query text, if any.
    pub fn get(&self, q: &str) -> (r: Option<&T>)
        ensures
            match r {
                Some(v) => self@.contains_key(q@) && *v == self@[q@],
                None => !self@.contains_key(q@),
            },
    {
        proof {
            use_type_invariant(self);
        }
        match self.find(q) {
            Some(i) => {
                proof {
                    lemma_query_at(self.entries@, i as int);
                }
                Some(&self.entries[i].1)
            },
            None => None,
        }
    }

    /// Stores the value of a query; a cache already holding 32 queries is
    /// cleared first.
    pub fn insert(&mut self, q: String, v: T)
        ensures
            final(self)@ == query_after_insert(old(self)@, q@, v),
    {
        proof {
            use_type_invariant(&*self);
            lemma_query_len(self.entries@);
        }
        let mut es: Vec<(String, T)> = Vec::new();
        std::mem::swap(&mut es, &mut self.entries);
        if es.len() >= 32 {
            es.clear();
            assert(query_map(es@) =~= Map::<Seq<char>, T>::empty());
        }
        self.entries = es;
        let found = self.find(q.as_str());
        let ghost s0 = self.entries@;
        let ghost qv = q@;
        let mut es: Vec<(String, T)> = Vec::new();
        std::mem::swap(&mut es, &mut self.entries);
        match found {
            Some(i) => {
                proof {
                    lemma_query_update(s0, i as int, (q, v));
                    assert(s0.remove(i as int).insert(i as int, (q, v)) =~= s0.update(
                        i as int,
                        (q, v),
                    ));
                }
                let _old_entry = es.remove(i);
                es.insert(i, (q, v));
            },
            None => {
                proof {
                    lemma_query_push(s0, (q, v));
                    lemma_query_len(s0);
                }
                es.push((q, v));
            },
        }
        self.entries = es;
    }
}

/// What a query cache holding `m` holds after storing `v` for `q`.
pub open spec fn query_after_insert<T>(m: Map<Seq<char>, T>, q: Seq<char>, v: T) -> Map<Seq<char>, T> {
    (if m.dom().len() >= 32 {
        Map::<Seq<char>, T>::empty()
    } else {
        m
    }).insert(q, v)
}

/// Storing a query's value keeps the cache to at most 32 queries, reading
/// the query back gives the value, and a cache that was not full keeps every
/// other query.
pub proof fn lemma_query_insert_law<T>(m: Map<Seq<char>, T>, q: Seq<char>, v: T)
    requires
        m.dom().finite(),
        m.dom().len() <= 32,
    ensures
        query_after_insert(m, q, v).dom().finite(),
        query_after_insert(m, q, v).dom().len() <= 32,
        query_after_insert(m, q, v).contains_key(q) && query_after_insert(m, q, v)[q] == v,
        m.dom().len() < 32 ==> forall|k: Seq<char>|
            k != q && #[trigger] m.contains_key(k) ==> query_after_insert(m, q, v).contains_key(k)
                && query_after_insert(m, q, v)[k] == m[k],
{
    let a = query_after_insert(m, q, v);
    if m.dom().len() >= 32 {
        assert(a.dom() =~= Set::<Seq<char>>::empty().insert(q));
    } else {
        assert(a.dom() =~= m.dom().insert(q));
    }
}

} // verus!
