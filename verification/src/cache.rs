//! Process-tensor cache: a bounded store keyed by configuration hash, evicting the
//! least recently used entry when full.
use vstd::prelude::*;

verus! {

broadcast use vstd::seq_lib::seq_to_set_is_finite;

/// The keys of a list of entries, in order.
pub open spec fn entry_keys<T>(s: Seq<(u64, T)>) -> Seq<u64> {
    s.map_values(|e: (u64, T)| e.0)
}

/// The map a list of entries with distinct keys stands for.
pub open spec fn entries_map<T>(s: Seq<(u64, T)>) -> Map<u64, T> {
    Map::new(
        |k: u64| exists|i: int| 0 <= i < s.len() && s[i].0 == k,
        |k: u64| s[choose|i: int| 0 <= i < s.len() && s[i].0 == k].1,
    )
}

/// No key occurs twice.
pub open spec fn distinct_keys<T>(s: Seq<(u64, T)>) -> bool {
    forall|i: int, j: int| 0 <= i < s.len() && 0 <= j < s.len() && i != j ==> s[i].0 != s[j].0
}

/// `q` without any occurrence of `k`, order kept.
pub open spec fn without_key(q: Seq<u64>, k: u64) -> Seq<u64>
    decreases q.len(),
{
    if q.len() == 0 {
        Seq::empty()
    } else if q.last() == k {
        without_key(q.drop_last(), k)
    } else {
        without_key(q.drop_last(), k).push(q.last())
    }
}

proof fn lemma_map_value<T>(s: Seq<(u64, T)>, i: int)
    requires
        distinct_keys(s),
        0 <= i < s.len(),
    ensures
        entries_map(s).dom().contains(s[i].0),
        entries_map(s)[s[i].0] == s[i].1,
{
    assert(entries_map(s).dom().contains(s[i].0));
}

proof fn lemma_map_push<T>(s: Seq<(u64, T)>, k: u64, v: T)
    requires
        distinct_keys(s),
        !entries_map(s).dom().contains(k),
    ensures
        distinct_keys(s.push((k, v))),
        entries_map(s.push((k, v))) == entries_map(s).insert(k, v),
{
    let t = s.push((k, v));
    assert(distinct_keys(t)) by {
        assert forall|i: int, j: int| 0 <= i < t.len() && 0 <= j < t.len() && i != j implies t[i].0 != t[j].0 by {
            if i == s.len() as int {
                assert(entries_map(s).dom().contains(s[j].0));
            } else if j == s.len() as int {
                assert(entries_map(s).dom().contains(s[i].0));
            }
        }
    }
    assert forall|key: u64| #[trigger] entries_map(t).dom().contains(key) <==> entries_map(s).insert(k, v).dom().contains(key) by {
        if entries_map(s).dom().contains(key) {
            let i = choose|i: int| 0 <= i < s.len() && s[i].0 == key;
            assert(t[i].0 == key);
        }
        if entries_map(t).dom().contains(key) && key != k {
            let i = choose|i: int| 0 <= i < t.len() && t[i].0 == key;
            assert(s[i].0 == key);
        }
        if key == k {
            assert(t[s.len() as int].0 == k);
        }
    }
    assert forall|key: u64| #[trigger] entries_map(t).dom().contains(key) implies entries_map(t)[key] == entries_map(s).insert(k, v)[key] by {
        if key == k {
            lemma_map_value(t, s.len() as int);
        } else {
            let i = choose|i: int| 0 <= i < t.len() && t[i].0 == key;
            assert(s[i].0 == key);
            lemma_map_value(t, i);
            lemma_map_value(s, i);
        }
    }
    assert(entries_map(t) =~= entries_map(s).insert(k, v));
}

proof fn lemma_map_update<T>(s: Seq<(u64, T)>, i: int, v: T)
    requires
        distinct_keys(s),
        0 <= i < s.len(),
    ensures
        distinct_keys(s.update(i, (s[i].0, v))),
        entries_map(s.update(i, (s[i].0, v))) == entries_map(s).insert(s[i].0, v),
{
    let t = s.update(i, (s[i].0, v));
    assert(distinct_keys(t)) by {
        assert forall|a: int, b: int| 0 <= a < t.len() && 0 <= b < t.len() && a != b implies t[a].0 != t[b].0 by {
            assert(t[a].0 == s[a].0 && t[b].0 == s[b].0);
        }
    }
    assert forall|key: u64| #[trigger] entries_map(t).dom().contains(key) <==> entries_map(s).insert(s[i].0, v).dom().contains(key) by {
        if entries_map(s).dom().contains(key) {
            let j = choose|j: int| 0 <= j < s.len() && s[j].0 == key;
            assert(t[j].0 == key);
        }
        if entries_map(t).dom().contains(key) {
            let j = choose|j: int| 0 <= j < t.len() && t[j].0 == key;
            assert(s[j].0 == key);
        }
        assert(t[i].0 == s[i].0);
    }
    assert forall|key: u64| #[trigger] entries_map(t).dom().contains(key) implies entries_map(t)[key] == entries_map(s).insert(s[i].0, v)[key] by {
        let j = choose|j: int| 0 <= j < t.len() && t[j].0 == key;
        lemma_map_value(t, j);
        if j != i {
            assert(s[j] == t[j]);
            lemma_map_value(s, j);
        }
    }
    assert(entries_map(t) =~= entries_map(s).insert(s[i].0, v));
}

proof fn lemma_map_remove<T>(s: Seq<(u64, T)>, i: int)
    requires
        distinct_keys(s),
        0 <= i < s.len(),
    ensures
        distinct_keys(s.remove(i)),
        entries_map(s.remove(i)) == entries_map(s).remove(s[i].0),
{
    let t = s.remove(i);
    assert forall|a: int| 0 <= a < t.len() implies #[trigger] t[a] == if a < i { s[a] } else { s[a + 1] } by {}
    assert(distinct_keys(t)) by {
        assert forall|a: int, b: int| 0 <= a < t.len() && 0 <= b < t.len() && a != b implies t[a].0 != t[b].0 by {
            let sa = if a < i { a } else { a + 1 };
            let sb = if b < i { b } else { b + 1 };
            assert(t[a] == s[sa] && t[b] == s[sb]);
        }
    }
    assert forall|key: u64| #[trigger] entries_map(t).dom().contains(key) <==> entries_map(s).remove(s[i].0).dom().contains(key) by {
        if entries_map(t).dom().contains(key) {
            let a = choose|a: int| 0 <= a < t.len() && t[a].0 == key;
            let sa = if a < i { a } else { a + 1 };
            assert(t[a] == s[sa]);
            assert(s[sa].0 == key);
            assert(sa != i);
        }
        if entries_map(s).remove(s[i].0).dom().contains(key) {
            let j = choose|j: int| 0 <= j < s.len() && s[j].0 == key;
            assert(j != i);
            let ta = if j < i { j } else { j - 1 };
            assert(t[ta] == s[j]);
        }
    }
    assert forall|key: u64| #[trigger] entries_map(t).dom().contains(key) implies entries_map(t)[key] == entries_map(s).remove(s[i].0)[key] by {
        let a = choose|a: int| 0 <= a < t.len() && t[a].0 == key;
        let sa = if a < i { a } else { a + 1 };
        assert(t[a] == s[sa]);
        lemma_map_value(t, a);
        lemma_map_value(s, sa);
    }
    assert(entries_map(t) =~= entries_map(s).remove(s[i].0));
}

proof fn lemma_map_len<T>(s: Seq<(u64, T)>)
    requires
        distinct_keys(s),
    ensures
        entries_map(s).dom().finite(),
        entries_map(s).dom().len() == s.len(),
{
    let ks = entry_keys(s);
    assert(ks.no_duplicates()) by {
        assert forall|i: int, j: int| 0 <= i < ks.len() && 0 <= j < ks.len() && i != j implies ks[i] != ks[j] by {
            assert(ks[i] == s[i].0 && ks[j] == s[j].0);
        }
    }
    ks.unique_seq_to_set();
    assert forall|k: u64| #[trigger] entries_map(s).dom().contains(k) <==> ks.to_set().contains(k) by {
        if entries_map(s).dom().contains(k) {
            let i = choose|i: int| 0 <= i < s.len() && s[i].0 == k;
            assert(ks[i] == k);
        }
        if ks.to_set().contains(k) {
            let i = choose|i: int| 0 <= i < ks.len() && ks[i] == k;
            assert(s[i].0 == k);
        }
    }
    assert(entries_map(s).dom() =~= ks.to_set());
}

/// Contents and use queue after storing `tensor` under `key`: when the store holds `max`
/// entries or more, the hash at the front of the queue is evicted first.
pub open spec fn insert_result<T>(m: Map<u64, T>, q: Seq<u64>, max: nat, key: u64, tensor: T) -> (Map<u64, T>, Seq<u64>) {
    let evict = m.dom().len() >= max && q.len() > 0;
    let m1 = if evict { m.remove(q[0]) } else { m };
    let q1 = if evict { q.drop_first() } else { q };
    (m1.insert(key, tensor), q1.push(key))
}

/// The queue lists each stored hash exactly once, and the store is within its bound.
pub open spec fn lru_consistent<T>(m: Map<u64, T>, q: Seq<u64>, max: nat) -> bool {
    &&& m.dom().finite()
    &&& q.no_duplicates()
    &&& q.to_set() == m.dom()
    &&& m.dom().len() <= max
}

/// What is stored can be read back: right after storing `tensor` under `key`, the cache
/// holds exactly that tensor under `key`.
pub proof fn law_read_after_write<T>(m: Map<u64, T>, q: Seq<u64>, max: nat, key: u64, tensor: T)
    ensures
        insert_result(m, q, max, key, tensor).0.dom().contains(key),
        insert_result(m, q, max, key, tensor).0[key] == tensor,
{
}

proof fn lemma_drop_first_set(q: Seq<u64>)
    requires
        q.len() > 0,
        q.no_duplicates(),
    ensures
        q.drop_first().no_duplicates(),
        q.drop_first().to_set() == q.to_set().remove(q[0]),
{
    assert forall|x: u64| #[trigger] q.drop_first().to_set().contains(x) <==> q.to_set().remove(q[0]).contains(x) by {
        if q.drop_first().contains(x) {
            let i = choose|i: int| 0 <= i < q.drop_first().len() && q.drop_first()[i] == x;
            assert(q[i + 1] == x);
        }
        if q.to_set().remove(q[0]).contains(x) {
            let i = choose|i: int| 0 <= i < q.len() && q[i] == x;
            assert(i != 0);
            assert(q.drop_first()[i - 1] == x);
        }
    }
    assert(q.drop_first().to_set() =~= q.to_set().remove(q[0]));
}

proof fn lemma_push_set(q: Seq<u64>, k: u64)
    requires
        q.no_duplicates(),
        !q.contains(k),
    ensures
        q.push(k).no_duplicates(),
        q.push(k).to_set() == q.to_set().insert(k),
{
    assert forall|x: u64| #[trigger] q.push(k).to_set().contains(x) <==> q.to_set().insert(k).contains(x) by {
        if q.push(k).contains(x) {
            let i = choose|i: int| 0 <= i < q.push(k).len() && q.push(k)[i] == x;
            if i < q.len() {
                assert(q[i] == x);
            }
        }
        if q.contains(x) {
            let i = choose|i: int| 0 <= i < q.len() && q[i] == x;
            assert(q.push(k)[i] == x);
        }
        if x == k {
            assert(q.push(k)[q.len() as int] == k);
        }
    }
    assert(q.push(k).to_set() =~= q.to_set().insert(k));
}

/// A cache used without re-inserting a hash it already holds never exceeds its bound, and
/// its queue keeps listing each stored hash exactly once.
pub proof fn law_capacity_respected<T>(m: Map<u64, T>, q: Seq<u64>, max: nat, key: u64, tensor: T)
    requires
        lru_consistent(m, q, max),
        max >= 1,
        !m.dom().contains(key),
    ensures
        lru_consistent(insert_result(m, q, max, key, tensor).0, insert_result(m, q, max, key, tensor).1, max),
{
    let evict = m.dom().len() >= max && q.len() > 0;
    if m.dom().len() >= max {
        assert(m.dom().len() > 0);
        if q.len() == 0 {
            assert(q.to_set() =~= Set::empty());
            assert(false);
        }
        lemma_drop_first_set(q);
        assert(q.contains(q[0]));
        let m1 = m.remove(q[0]);
        let q1 = q.drop_first();
        assert(m1.dom() == m.dom().remove(q[0]));
        assert(!q1.contains(key)) by {
            if q1.contains(key) {
                assert(q1.to_set().contains(key));
            }
        }
        lemma_push_set(q1, key);
        assert(m1.insert(key, tensor).dom() =~= m1.dom().insert(key));
    } else {
        assert(!q.contains(key)) by {
            if q.contains(key) {
                assert(q.to_set().contains(key));
            }
        }
        lemma_push_set(q, key);
        assert(m.insert(key, tensor).dom() =~= m.dom().insert(key));
    }
}

/// Process tensor cache: at most a given number of entries, the least recently used one
/// evicted first.
pub struct ProcessTensorCache<T> {
    /// Stored tensors, by configuration hash; no hash occurs twice
    cache: Vec<(u64, T)>,
    /// Maximum cache size
    max_size: usize,
    /// Use order, least recently used first
    lru_queue: Vec<u64>,
}

impl<T> ProcessTensorCache<T> {
    /// The stored tensors by configuration hash.
    pub closed spec fn contents(&self) -> Map<u64, T> {
        entries_map(self.cache@)
    }

    /// The use order of the hashes, least recently used first.
    pub closed spec fn queue(&self) -> Seq<u64> {
        self.lru_queue@
    }

    /// The configured maximum size.
    pub closed spec fn max_size(&self) -> nat {
        self.max_size as nat
    }

    /// The storage holds each hash once.
    pub closed spec fn wf(&self) -> bool {
        distinct_keys(self.cache@)
    }

    /// An empty cache of the given maximum size.
    pub fn new(max_size: usize) -> (r: Self)
        ensures
            r.wf(),
            r.contents() == Map::<u64, T>::empty(),
            r.queue() == Seq::<u64>::empty(),
            r.max_size() == max_size,
    {
        let r = ProcessTensorCache { cache: Vec::new(), max_size, lru_queue: Vec::new() };
        assert(r.contents() =~= Map::<u64, T>::empty());
        r
    }

    fn position(&self, key: u64) -> (r: Option<usize>)
        requires
            self.wf(),
        ensures
            r matches Some(i) ==> i < self.cache@.len() && self.cache@[i as int].0 == key,
            r is None <==> !self.contents().dom().contains(key),
    {
        let mut i: usize = 0;
        while i < self.cache.len()
            invariant
                i <= self.cache@.len(),
                forall|k: int| 0 <= k < i ==> self.cache@[k].0 != key,
            decreases self.cache@.len() - i,
        {
            if self.cache[i].0 == key {
                return Some(i);
            }
            i = i + 1;
        }
        assert(!self.contents().dom().contains(key));
        None
    }

    /// Looks a tensor up by configuration hash; a hit moves the hash to the most recently
    /// used end of the queue.
    pub fn get(&mut self, key: u64) -> (r: Option<&T>)
        requires
            old(self).wf(),
        ensures
            final(self).wf(),
            final(self).contents() == old(self).contents(),
            final(self).max_size() == old(self).max_size(),
            old(self).contents().dom().contains(key) ==> (r == Some(&old(self).contents()[key])
                && final(self).queue() == without_key(old(self).queue(), key).push(key)),
            !old(self).contents().dom().contains(key) ==> (r is None && final(self).queue()
                == old(self).queue()),
    {
        match self.position(key) {
            None => None,
            Some(i) => {
                let mut q: Vec<u64> = Vec::new();
                let mut j: usize = 0;
                while j < self.lru_queue.len()
                    invariant
                        j <= self.lru_queue@.len(),
                        q@ == without_key(self.lru_queue@.subrange(0, j as int), key),
                    decreases self.lru_queue@.len() - j,
                {
                    let h = self.lru_queue[j];
                    if h != key {
                        q.push(h);
                    }
                    j = j + 1;
                    assert(self.lru_queue@.subrange(0, j as int).drop_last() =~= self.lru_queue@.subrange(0, j - 1));
                }
                assert(self.lru_queue@.subrange(0, self.lru_queue@.len() as int) =~= self.lru_queue@);
                q.push(key);
                self.lru_queue = q;
                proof {
                    lemma_map_value(self.cache@, i as int);
                }
                Some(&self.cache[i].1)
            },
        }
    }

    /// Stores a tensor under a configuration hash. When the cache holds `max_size` entries or
    /// more, the hash at the front of the use queue is evicted first.
    pub fn insert(&mut self, key: u64, tensor: T)
        requires
            old(self).wf(),
        ensures
            final(self).wf(),
            final(self).max_size() == old(self).max_size(),
            (final(self).contents(), final(self).queue()) == insert_result(
                old(self).contents(),
                old(self).queue(),
                old(self).max_size(),
                key,
                tensor,
            ),
    {
        proof {
            lemma_map_len(self.cache@);
        }
        if self.cache.len() >= self.max_size {
            if self.lru_queue.len() > 0 {
                let oldest = self.lru_queue.remove(0);
                match self.position(oldest) {
                    Some(i) => {
                        proof {
                            lemma_map_remove(self.cache@, i as int);
                        }
                        self.cache.remove(i);
                    },
                    None => {
                        assert(old(self).contents().remove(oldest) =~= old(self).contents());
                    },
                }
            }
        }
        let ghost mid = self.cache@;
        match self.position(key) {
            Some(i) => {
                proof {
                    lemma_map_update(mid, i as int, tensor);
                }
                self.cache.set(i, (key, tensor));
            },
            None => {
                proof {
                    lemma_map_push(mid, key, tensor);
                }
                self.cache.push((key, tensor));
            },
        }
        self.lru_queue.push(key);
    }

    /// Removes every entry.
    pub fn clear(&mut self)
        ensures
            final(self).wf(),
            final(self).contents() == Map::<u64, T>::empty(),
            final(self).queue() == Seq::<u64>::empty(),
            final(self).max_size() == old(self).max_size(),
    {
        self.cache = Vec::new();
        self.lru_queue = Vec::new();
        assert(self.contents() =~= Map::<u64, T>::empty());
    }

    /// Number of stored tensors.
    pub fn len(&self) -> (r: usize)
        requires
            self.wf(),
        ensures
            self.contents().dom().finite(),
            r == self.contents().dom().len(),
    {
        proof {
            lemma_map_len(self.cache@);
        }
        self.cache.len()
    }

    /// Whether the cache is empty.
    pub fn is_empty(&self) -> (r: bool)
        requires
            self.wf(),
        ensures
            r == (self.contents().dom().len() == 0),
    {
        proof {
            lemma_map_len(self.cache@);
        }
        self.cache.len() == 0
    }
}

} // verus!
