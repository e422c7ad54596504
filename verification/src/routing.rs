//! Entanglement routing network: nodes, links and adjacency, and the search for a route with
//! the fewest hops.
use vstd::prelude::*;
use vstd::string::*;
use crate::ids::new_uuid;
use crate::table::{find_key, key_index, lemma_key_index_range};

verus! {

/// Node of the quantum network.
pub struct NetworkNode {
    pub id: u128,
    pub name: String,
    /// Pair storage capacity
    pub capacity: usize,
    /// Currently stored pairs
    pub current_load: usize,
}

impl NetworkNode {
    /// An empty node of the given capacity, under a fresh random id.
    pub fn new(name: String, capacity: usize) -> (r: Self)
        ensures
            r.name == name,
            r.capacity == capacity,
            r.current_load == 0,
    {
        NetworkNode { id: new_uuid(), name, capacity, current_load: 0 }
    }

    /// Free storage: capacity minus load, or 0 when the node is over capacity.
    pub fn available_space(&self) -> (r: usize)
        ensures
            r == if self.current_load <= self.capacity { self.capacity - self.current_load } else { 0 },
    {
        self.capacity.saturating_sub(self.current_load)
    }
}

/// Link between two nodes; usable in both directions while active.
pub struct NetworkLink {
    pub id: u128,
    pub source: u128,
    pub target: u128,
    pub active: bool,
}

impl NetworkLink {
    /// An active link from `source` to `target`, under a fresh random id.
    pub fn new(source: u128, target: u128) -> (r: Self)
        ensures
            r.source == source,
            r.target == target,
            r.active,
    {
        NetworkLink { id: new_uuid(), source, target, active: true }
    }
}

/// Network topology: nodes and links keyed by id, and each node's neighbours.
pub struct NetworkTopology {
    /// Nodes, in order of insertion
    pub nodes: Vec<NetworkNode>,
    /// Links, in order of insertion
    pub links: Vec<NetworkLink>,
    /// For each node, its neighbours (one entry per link end)
    pub adjacency: Vec<(u128, Vec<u128>)>,
}

/// Whether link `l` joins `a` and `b`, either way round.
pub open spec fn joins(l: NetworkLink, a: u128, b: u128) -> bool {
    (l.source == a && l.target == b) || (l.source == b && l.target == a)
}

/// The first link, in order, joining `a` and `b`.
pub open spec fn first_link(ls: Seq<NetworkLink>, a: u128, b: u128) -> Option<NetworkLink>
    decreases ls.len(),
{
    if ls.len() == 0 {
        None
    } else if joins(ls[0], a, b) {
        Some(ls[0])
    } else {
        first_link(ls.drop_first(), a, b)
    }
}

/// The neighbours listed for `a` (the first entry for `a`), or none.
pub open spec fn lookup(adj: Seq<(u128, Vec<u128>)>, a: u128) -> Seq<u128>
    decreases adj.len(),
{
    if adj.len() == 0 {
        Seq::empty()
    } else if adj[0].0 == a {
        adj[0].1@
    } else {
        lookup(adj.drop_first(), a)
    }
}

/// An index moved `by` places on.
pub open spec fn shifted(o: Option<int>, by: int) -> Option<int> {
    match o {
        Some(k) => Some(k + by),
        None => None,
    }
}

/// Some node has id `id`.
pub open spec fn has_node(t: NetworkTopology, id: u128) -> bool {
    exists|i: int| 0 <= i < t.nodes@.len() && t.nodes@[i].id == id
}

/// One hop from `a` to `b` can be taken: `b` is listed among `a`'s neighbours and the
/// first link joining them is active.
#[verifier::opaque]
pub open spec fn usable(t: NetworkTopology, a: u128, b: u128) -> bool {
    &&& lookup(t.adjacency@, a).contains(b)
    &&& first_link(t.links@, a, b) matches Some(l) && l.active
}

/// `p` is a route from `s` to `d`: it starts at `s`, ends at `d`, and every hop can be taken.
pub open spec fn route(t: NetworkTopology, p: Seq<u128>, s: u128, d: u128) -> bool {
    &&& p.len() >= 1
    &&& p[0] == s
    &&& p.last() == d
    &&& forall|i: int| 0 <= i < p.len() - 1 ==> usable(t, #[trigger] p[i], p[i + 1])
}

/// `w` can be reached from `s` in at most `k` hops.
pub open spec fn within(t: NetworkTopology, s: u128, k: nat, w: u128) -> bool {
    exists|p: Seq<u128>| #[trigger] route(t, p, s, w) && p.len() <= k + 1
}

/// `w` is one hop from a node reachable from `s` in at most `k` hops.
pub open spec fn step(t: NetworkTopology, s: u128, k: nat, w: u128) -> bool {
    exists|u: u128| #[trigger] within(t, s, k, u) && usable(t, u, w)
}

proof fn lemma_within_zero(t: NetworkTopology, s: u128, w: u128)
    ensures
        within(t, s, 0, w) <==> w == s,
{
    if w == s {
        assert(route(t, seq![s], s, w));
    }
}

proof fn lemma_within_succ(t: NetworkTopology, s: u128, k: nat, w: u128)
    ensures
        within(t, s, k + 1, w) == (within(t, s, k, w) || step(t, s, k, w)),
{
    if within(t, s, k + 1, w) && !within(t, s, k, w) {
        let p = choose|p: Seq<u128>| #[trigger] route(t, p, s, w) && p.len() <= k + 1 + 1;
        assert(p.len() == k + 2);
        let q = p.drop_last();
        let u = p[p.len() - 2];
        assert forall|i: int| 0 <= i < q.len() - 1 implies usable(t, #[trigger] q[i], q[i + 1]) by {
            assert(usable(t, p[i], p[i + 1]));
        }
        assert(route(t, q, s, u));
        assert(within(t, s, k, u));
        assert(usable(t, p[p.len() - 2], p[p.len() - 1]));
        assert(step(t, s, k, w));
    }
    if within(t, s, k, w) {
        let p = choose|p: Seq<u128>| #[trigger] route(t, p, s, w) && p.len() <= k + 1;
        assert(route(t, p, s, w) && p.len() <= k + 1 + 1);
    }
    if step(t, s, k, w) {
        let u = choose|u: u128| #[trigger] within(t, s, k, u) && usable(t, u, w);
        let p = choose|p: Seq<u128>| #[trigger] route(t, p, s, u) && p.len() <= k + 1;
        let p2 = p.push(w);
        assert forall|i: int| 0 <= i < p2.len() - 1 implies usable(t, #[trigger] p2[i], p2[i + 1]) by {
            if i < p.len() - 1 {
                assert(p2[i] == p[i] && p2[i + 1] == p[i + 1]);
            } else {
                assert(p2[i] == u && p2[i + 1] == w);
            }
        }
        assert(route(t, p2, s, w));
    }
}

impl NetworkTopology {
    /// An empty topology.
    pub fn new() -> (r: Self)
        ensures
            r.nodes@.len() == 0,
            r.links@.len() == 0,
            r.adjacency@.len() == 0,
    {
        NetworkTopology { nodes: Vec::new(), links: Vec::new(), adjacency: Vec::new() }
    }

    /// Adds (or replaces, by id) a node, with no neighbours.
    pub fn add_node(&mut self, node: NetworkNode)
        ensures
            final(self).nodes@ == (match index_of_node(old(self).nodes@, node.id) {
                Some(i) => old(self).nodes@.update(i, node),
                None => old(self).nodes@.push(node),
            }),
            final(self).links == old(self).links,
            forall|a: u128| lookup(final(self).adjacency@, a) == if a == node.id {
                Seq::<u128>::empty()
            } else {
                lookup(old(self).adjacency@, a)
            },
    {
        let id = node.id;
        match self.node_position(id) {
            Some(i) => {
                self.nodes.set(i, node);
            },
            None => {
                self.nodes.push(node);
            },
        }
        self.set_neighbours(id, Vec::new());
    }

    /// Lists `nbrs` as the neighbours of `a`, replacing any earlier list.
    fn set_neighbours(&mut self, a: u128, nbrs: Vec<u128>)
        ensures
            final(self).nodes == old(self).nodes,
            final(self).links == old(self).links,
            forall|x: u128| lookup(final(self).adjacency@, x) == if x == a {
                nbrs@
            } else {
                lookup(old(self).adjacency@, x)
            },
    {
        let ghost nv = nbrs@;
        match find_key(&self.adjacency, a) {
            Some(i) => {
                let ghost pre = self.adjacency@;
                self.adjacency.set(i, (a, nbrs));
                proof {
                    assert forall|x: u128| lookup(self.adjacency@, x) == if x == a { nv } else { lookup(pre, x) } by {
                        lemma_lookup_update(pre, i as int, a, nbrs, x);
                    }
                }
            },
            None => {
                let ghost pre = self.adjacency@;
                self.adjacency.push((a, nbrs));
                proof {
                    assert forall|x: u128| lookup(self.adjacency@, x) == if x == a { nv } else { lookup(pre, x) } by {
                        lemma_lookup_push(pre, a, nbrs, x);
                    }
                }
            },
        }
    }

    /// Adds (or replaces, by id) a link, and lists each end among the other's neighbours.
    pub fn add_link(&mut self, link: NetworkLink)
        ensures
            final(self).nodes == old(self).nodes,
            final(self).links@ == (match index_of_link(old(self).links@, link.id) {
                Some(i) => old(self).links@.update(i, link),
                None => old(self).links@.push(link),
            }),
            forall|x: u128| #[trigger] lookup(final(self).adjacency@, x) == if x == link.source && x == link.target {
                lookup(old(self).adjacency@, x).push(link.target).push(link.source)
            } else if x == link.source {
                lookup(old(self).adjacency@, x).push(link.target)
            } else if x == link.target {
                lookup(old(self).adjacency@, x).push(link.source)
            } else {
                lookup(old(self).adjacency@, x)
            },
    {
        let source = link.source;
        let target = link.target;
        match self.link_position(link.id) {
            Some(i) => {
                self.links.set(i, link);
            },
            None => {
                self.links.push(link);
            },
        }
        let mut ns = self.neighbours_of(source);
        ns.push(target);
        self.set_neighbours(source, ns);
        let mut nt = self.neighbours_of(target);
        nt.push(source);
        self.set_neighbours(target, nt);
    }

    /// Where the node with id `id` stands, if any.
    fn node_position(&self, id: u128) -> (r: Option<usize>)
        ensures
            match r {
                Some(i) => i < self.nodes@.len() && index_of_node(self.nodes@, id) == Some(i as int),
                None => index_of_node(self.nodes@, id) is None,
            },
    {
        let ghost ns = self.nodes@;
        let mut i: usize = 0;
        assert(ns.subrange(0, ns.len() as int) =~= ns);
        while i < self.nodes.len()
            invariant
                i <= ns.len(),
                ns == self.nodes@,
                index_of_node(ns, id) == shifted(index_of_node(ns.subrange(i as int, ns.len() as int), id), i as int),
            decreases ns.len() - i,
        {
            proof {
                let rest = ns.subrange(i as int, ns.len() as int);
                assert(rest[0] == ns[i as int]);
                assert(rest.drop_first() =~= ns.subrange(i + 1, ns.len() as int));
            }
            if self.nodes[i].id == id {
                return Some(i);
            }
            i = i + 1;
        }
        proof {
            assert(ns.subrange(i as int, ns.len() as int) =~= Seq::<NetworkNode>::empty());
        }
        None
    }

    /// Where the link with id `id` stands, if any.
    fn link_position(&self, id: u128) -> (r: Option<usize>)
        ensures
            match r {
                Some(i) => i < self.links@.len() && index_of_link(self.links@, id) == Some(i as int),
                None => index_of_link(self.links@, id) is None,
            },
    {
        let ghost ls = self.links@;
        let mut i: usize = 0;
        assert(ls.subrange(0, ls.len() as int) =~= ls);
        while i < self.links.len()
            invariant
                i <= ls.len(),
                ls == self.links@,
                index_of_link(ls, id) == shifted(index_of_link(ls.subrange(i as int, ls.len() as int), id), i as int),
            decreases ls.len() - i,
        {
            proof {
                let rest = ls.subrange(i as int, ls.len() as int);
                assert(rest[0] == ls[i as int]);
                assert(rest.drop_first() =~= ls.subrange(i + 1, ls.len() as int));
            }
            if self.links[i].id == id {
                return Some(i);
            }
            i = i + 1;
        }
        proof {
            assert(ls.subrange(i as int, ls.len() as int) =~= Seq::<NetworkLink>::empty());
        }
        None
    }

    /// The neighbours listed for `a`.
    pub fn neighbours_of(&self, a: u128) -> (r: Vec<u128>)
        ensures
            r@ == lookup(self.adjacency@, a),
    {
        match find_key(&self.adjacency, a) {
            Some(i) => {
                proof {
                    lemma_lookup_at(self.adjacency@, a);
                }
                self.adjacency[i].1.clone()
            },
            None => {
                proof {
                    lemma_lookup_at(self.adjacency@, a);
                }
                Vec::new()
            },
        }
    }

    /// The first link joining `node_a` and `node_b`, either way round.
    pub fn find_link(&self, node_a: u128, node_b: u128) -> (r: Option<&NetworkLink>)
        ensures
            match first_link(self.links@, node_a, node_b) {
                Some(l) => r == Some(&l),
                None => r is None,
            },
    {
        let ghost ls = self.links@;
        let mut i: usize = 0;
        assert(ls.subrange(0, ls.len() as int) =~= ls);
        while i < self.links.len()
            invariant
                i <= ls.len(),
                ls == self.links@,
                first_link(ls, node_a, node_b) == first_link(ls.subrange(i as int, ls.len() as int), node_a, node_b),
            decreases ls.len() - i,
        {
            let l = &self.links[i];
            proof {
                let rest = ls.subrange(i as int, ls.len() as int);
                assert(rest[0] == ls[i as int]);
                assert(rest.drop_first() =~= ls.subrange(i + 1, ls.len() as int));
            }
            if (l.source == node_a && l.target == node_b) || (l.source == node_b && l.target == node_a) {
                return Some(l);
            }
            i = i + 1;
        }
        proof {
            assert(ls.subrange(i as int, ls.len() as int) =~= Seq::<NetworkLink>::empty());
        }
        None
    }

    /// Whether a node with id `id` is present.
    pub fn contains_node(&self, id: u128) -> (r: bool)
        ensures
            r == has_node(*self, id),
    {
        let mut i: usize = 0;
        while i < self.nodes.len()
            invariant
                i <= self.nodes@.len(),
                forall|k: int| 0 <= k < i ==> self.nodes@[k].id != id,
            decreases self.nodes@.len() - i,
        {
            if self.nodes[i].id == id {
                return true;
            }
            i = i + 1;
        }
        false
    }
}

/// The index of the first node with id `id`, if any.
pub open spec fn index_of_node(ns: Seq<NetworkNode>, id: u128) -> Option<int>
    decreases ns.len(),
{
    if ns.len() == 0 {
        None
    } else if ns[0].id == id {
        Some(0)
    } else {
        match index_of_node(ns.drop_first(), id) {
            Some(i) => Some(i + 1),
            None => None,
        }
    }
}

/// The index of the first link with id `id`, if any.
pub open spec fn index_of_link(ls: Seq<NetworkLink>, id: u128) -> Option<int>
    decreases ls.len(),
{
    if ls.len() == 0 {
        None
    } else if ls[0].id == id {
        Some(0)
    } else {
        match index_of_link(ls.drop_first(), id) {
            Some(i) => Some(i + 1),
            None => None,
        }
    }
}

proof fn lemma_lookup_at(adj: Seq<(u128, Vec<u128>)>, a: u128)
    ensures
        match key_index(adj, a) {
            Some(i) => 0 <= i < adj.len() && adj[i].0 == a && lookup(adj, a) == adj[i].1@,
            None => lookup(adj, a) == Seq::<u128>::empty(),
        },
    decreases adj.len(),
{
    if adj.len() > 0 && adj[0].0 != a {
        lemma_lookup_at(adj.drop_first(), a);
    }
}

proof fn lemma_lookup_update(adj: Seq<(u128, Vec<u128>)>, i: int, a: u128, v: Vec<u128>, x: u128)
    requires
        key_index(adj, a) == Some(i),
    ensures
        lookup(adj.update(i, (a, v)), x) == if x == a { v@ } else { lookup(adj, x) },
    decreases adj.len(),
{
    lemma_key_index_range(adj, a);
    let u = adj.update(i, (a, v));
    assert(u.len() == adj.len());
    if i == 0 {
        assert(u[0] == (a, v));
        assert(u.drop_first() =~= adj.drop_first());
        if x != a {
            assert(lookup(u, x) == lookup(u.drop_first(), x));
            assert(lookup(adj, x) == lookup(adj.drop_first(), x));
        }
    } else {
        assert(adj[0].0 != a);
        assert(u[0] == adj[0]);
        assert(key_index(adj.drop_first(), a) == Some(i - 1));
        assert(u.drop_first() =~= adj.drop_first().update(i - 1, (a, v)));
        lemma_lookup_update(adj.drop_first(), i - 1, a, v, x);
        if x != adj[0].0 {
            assert(lookup(u, x) == lookup(u.drop_first(), x));
            assert(lookup(adj, x) == lookup(adj.drop_first(), x));
        }
    }
}

proof fn lemma_lookup_push(adj: Seq<(u128, Vec<u128>)>, a: u128, v: Vec<u128>, x: u128)
    requires
        key_index(adj, a) is None,
    ensures
        lookup(adj.push((a, v)), x) == if x == a { v@ } else { lookup(adj, x) },
    decreases adj.len(),
{
    let u = adj.push((a, v));
    if adj.len() == 0 {
        assert(u[0] == (a, v));
        assert(u.drop_first() =~= Seq::<(u128, Vec<u128>)>::empty());
        if x != a {
            assert(lookup(u, x) == lookup(u.drop_first(), x));
        }
    } else {
        assert(adj[0].0 != a);
        assert(u[0] == adj[0]);
        assert(key_index(adj.drop_first(), a) is None);
        assert(u.drop_first() =~= adj.drop_first().push((a, v)));
        lemma_lookup_push(adj.drop_first(), a, v, x);
        if x != adj[0].0 {
            assert(lookup(u, x) == lookup(u.drop_first(), x));
            assert(lookup(adj, x) == lookup(adj.drop_first(), x));
        }
    }
}

proof fn lemma_within_mono(t: NetworkTopology, s: u128, j: nat, k: nat, w: u128)
    requires
        j <= k,
        within(t, s, j, w),
    ensures
        within(t, s, k, w),
{
    let p = choose|p: Seq<u128>| #[trigger] route(t, p, s, w) && p.len() <= j + 1;
    assert(route(t, p, s, w) && p.len() <= k + 1);
}

proof fn lemma_route_within(t: NetworkTopology, q: Seq<u128>, s: u128, d: u128)
    requires
        route(t, q, s, d),
    ensures
        within(t, s, (q.len() - 1) as nat, d),
{
    assert(route(t, q, s, d) && q.len() <= (q.len() - 1) as nat + 1);
}

proof fn lemma_within_stable(t: NetworkTopology, s: u128, k: nat, j: nat, w: u128)
    requires
        k <= j,
        forall|x: u128| within(t, s, k + 1, x) ==> within(t, s, k, x),
    ensures
        within(t, s, j, w) ==> within(t, s, k, w),
    decreases j,
{
    if j > k && within(t, s, j, w) {
        let j1 = (j - 1) as nat;
        lemma_within_succ(t, s, j1, w);
        lemma_within_stable(t, s, k, j1, w);
        if !within(t, s, j1, w) {
            let u = choose|u: u128| #[trigger] within(t, s, j1, u) && usable(t, u, w);
            lemma_within_stable(t, s, k, j1, u);
            lemma_within_succ(t, s, k, w);
            assert(step(t, s, k, w));
        }
    }
}

/// Whether the first link joining `u` and `w` is active.
fn link_active(t: &NetworkTopology, u: u128, w: u128) -> (r: bool)
    ensures
        r == (first_link(t.links@, u, w) matches Some(l) && l.active),
{
    match t.find_link(u, w) {
        Some(l) => l.active,
        None => false,
    }
}

/// Whether `x` occurs in `v`.
fn occurs(v: &Vec<u128>, x: u128) -> (r: bool)
    ensures
        r == v@.contains(x),
{
    let mut i: usize = 0;
    while i < v.len()
        invariant
            i <= v@.len(),
            forall|k: int| 0 <= k < i ==> v@[k] != x,
        decreases v@.len() - i,
    {
        if v[i] == x {
            assert(v@[i as int] == x);
            return true;
        }
        i = i + 1;
    }
    false
}

/// `s` and every id listed as a neighbour.
fn all_ids(t: &NetworkTopology, s: u128) -> (r: Vec<u128>)
    ensures
        r@.contains(s),
        forall|u: u128, w: u128| #[trigger] lookup(t.adjacency@, u).contains(w) ==> r@.contains(w),
{
    let mut r: Vec<u128> = Vec::new();
    r.push(s);
    assert(r@[0] == s);
    let mut i: usize = 0;
    while i < t.adjacency.len()
        invariant
            i <= t.adjacency@.len(),
            r@.contains(s),
            forall|a: int, b: int| 0 <= a < i && 0 <= b < t.adjacency@[a].1@.len() ==> r@.contains(
                #[trigger] t.adjacency@[a].1@[b]),
        decreases t.adjacency@.len() - i,
    {
        let ghost before = r@;
        let nbrs = &t.adjacency[i].1;
        let mut j: usize = 0;
        while j < nbrs.len()
            invariant
                j <= nbrs@.len(),
                nbrs@ == t.adjacency@[i as int].1@,
                forall|x: u128| before.contains(x) ==> r@.contains(x),
                forall|b: int| 0 <= b < j ==> r@.contains(#[trigger] nbrs@[b]),
            decreases nbrs@.len() - j,
        {
            let ghost pre = r@;
            r.push(nbrs[j]);
            proof {
                assert(r@[pre.len() as int] == nbrs@[j as int]);
                assert forall|x: u128| pre.contains(x) implies r@.contains(x) by {
                    let m = choose|m: int| 0 <= m < pre.len() && pre[m] == x;
                    assert(r@[m] == x);
                }
            }
            j = j + 1;
        }
        i = i + 1;
    }
    proof {
        assert forall|u: u128, w: u128| #[trigger] lookup(t.adjacency@, u).contains(w) implies r@.contains(w) by {
            lemma_lookup_at(t.adjacency@, u);
            lemma_key_index_range(t.adjacency@, u);
            if key_index(t.adjacency@, u) is Some {
                let a = key_index(t.adjacency@, u)->0;
                let b = choose|b: int| 0 <= b < lookup(t.adjacency@, u).len() && lookup(t.adjacency@, u)[b] == w;
                assert(t.adjacency@[a].1@[b] == w);
            }
        }
    }
    r
}

proof fn lemma_seen_bounded(seen: Seq<u128>, universe: Seq<u128>)
    requires
        seen.no_duplicates(),
        forall|i: int| 0 <= i < seen.len() ==> universe.contains(#[trigger] seen[i]),
    ensures
        seen.len() <= universe.len(),
{
    seen.unique_seq_to_set();
    universe.lemma_cardinality_of_set();
    vstd::seq_lib::seq_to_set_is_finite(universe);
    assert(seen.to_set().subset_of(universe.to_set())) by {
        assert forall|x: u128| seen.to_set().contains(x) implies universe.to_set().contains(x) by {
            let i = choose|i: int| 0 <= i < seen.len() && seen[i] == x;
            assert(universe.contains(seen[i]));
        }
    }
    vstd::set_lib::lemma_len_subset(seen.to_set(), universe.to_set());
}

/// A route from `source` to `destination` with the fewest hops, breadth first over the
/// hops that can be taken. Errors when either node is absent, and when there is no route
/// of at least one hop (in particular from a node to itself).
pub fn dijkstra_shortest_path(topology: &NetworkTopology, source: u128, destination: u128) -> (r: Result<
    Vec<u128>,
    String,
>)
    ensures
        !has_node(*topology, source) ==> (r matches Err(m) && m@ == "Source node not found"@),
        has_node(*topology, source) && !has_node(*topology, destination) ==> (r matches Err(m) && m@
            == "Destination node not found"@),
        has_node(*topology, source) && has_node(*topology, destination) ==> match r {
            Ok(p) => source != destination && route(*topology, p@, source, destination) && forall|q: Seq<u128>|
                #[trigger] route(*topology, q, source, destination) ==> p@.len() <= q.len(),
            Err(m) => m@ == "No path found"@ && (source == destination || forall|q: Seq<u128>|
                !#[trigger] route(*topology, q, source, destination)),
        },
{
    let ghost t = *topology;
    if !topology.contains_node(source) {
        return Err(String::from_str("Source node not found"));
    }
    if !topology.contains_node(destination) {
        return Err(String::from_str("Destination node not found"));
    }
    if source == destination {
        return Err(String::from_str("No path found"));
    }
    let universe = all_ids(topology, source);
    let mut seen: Vec<u128> = Vec::new();
    seen.push(source);
    let mut parent: Vec<usize> = Vec::new();
    parent.push(0);
    let ghost mut lv: Seq<nat> = seq![0nat];
    let mut start: usize = 0;
    let mut end: usize = 1;
    let ghost mut k: nat = 0;
    proof {
        assert forall|w: u128| seen@.contains(w) <==> within(t, source, k, w) by {
            lemma_within_zero(t, source, w);
            if seen@.contains(w) {
                let m = choose|m: int| 0 <= m < seen@.len() && seen@[m] == w;
            }
            if w == source {
                assert(seen@[0] == w);
            }
        }
        assert(seen@.no_duplicates());
    }
    loop
        invariant
            t == *topology,
            has_node(t, source) && has_node(t, destination) && source != destination,
            seen@.len() == end,
            parent@.len() == end,
            lv.len() == end,
            1 <= end,
            start < end,
            seen@[0] == source,
            lv[0] == 0,
            forall|i: int| 1 <= i < end ==> (#[trigger] parent@[i]) < i && usable(t, seen@[parent@[i] as int], seen@[i])
                && lv[i] == lv[parent@[i] as int] + 1,
            forall|i: int| start <= i < end ==> #[trigger] lv[i] == k,
            forall|w: u128| seen@.contains(w) <==> within(t, source, k, w),
            k > 0 ==> forall|f: int| 0 <= f < start ==> within(t, source, (k - 1) as nat, #[trigger] seen@[f]),
            k == 0 ==> start == 0,
            !within(t, source, k, destination),
            seen@.no_duplicates(),
            forall|i: int| 0 <= i < seen@.len() ==> universe@.contains(#[trigger] seen@[i]),
            universe@.contains(source),
            forall|u: u128, w: u128| #[trigger] lookup(t.adjacency@, u).contains(w) ==> universe@.contains(w),
        decreases universe@.len() - seen@.len(),
    {
        proof {
            lemma_seen_bounded(seen@, universe@);
        }
        let ghost base = seen@;
        let mut i: usize = start;
        while i < end
            invariant
                t == *topology,
                has_node(t, source) && has_node(t, destination) && source != destination,
                k > 0 ==> forall|f: int| 0 <= f < start ==> within(t, source, (k - 1) as nat, #[trigger] base[f]),
                k == 0 ==> start == 0,
                start <= i <= end,
                end <= seen@.len(),
                seen@.len() == parent@.len(),
                seen@.len() == lv.len(),
                seen@.subrange(0, end as int) == base,
                base.len() == end,
                base[0] == source,
                lv[0] == 0,
                forall|x: int| 1 <= x < seen@.len() ==> (#[trigger] parent@[x]) < x && usable(t, seen@[parent@[x] as int], seen@[x])
                    && lv[x] == lv[parent@[x] as int] + 1,
                forall|x: int| start <= x < end ==> #[trigger] lv[x] == k,
                forall|x: int| end <= x < seen@.len() ==> #[trigger] lv[x] == k + 1,
                forall|w: u128| base.contains(w) <==> within(t, source, k, w),
                forall|w: u128| seen@.contains(w) <==> within(t, source, k, w) || exists|f: int| start <= f < i
                    && #[trigger] usable(t, base[f], w),
                !seen@.contains(destination),
                seen@.no_duplicates(),
                forall|x: int| 0 <= x < seen@.len() ==> universe@.contains(#[trigger] seen@[x]),
                forall|u: u128, w: u128| #[trigger] lookup(t.adjacency@, u).contains(w) ==> universe@.contains(w),
                !within(t, source, k, destination),
            decreases end - i,
        {
            let u = seen[i];
            assert(u == base[i as int]);
            let nbrs = topology.neighbours_of(u);
            let mut j: usize = 0;
            while j < nbrs.len()
                invariant
                    t == *topology,
                    has_node(t, source) && has_node(t, destination) && source != destination,
                    k > 0 ==> forall|f: int| 0 <= f < start ==> within(t, source, (k - 1) as nat, #[trigger] base[f]),
                    k == 0 ==> start == 0,
                    start <= i < end,
                    u == base[i as int],
                    nbrs@ == lookup(t.adjacency@, u),
                    j <= nbrs@.len(),
                    end <= seen@.len(),
                    seen@.len() == parent@.len(),
                    seen@.len() == lv.len(),
                    seen@.subrange(0, end as int) == base,
                    base.len() == end,
                    base[0] == source,
                    lv[0] == 0,
                    forall|x: int| 1 <= x < seen@.len() ==> (#[trigger] parent@[x]) < x && usable(t, seen@[parent@[x] as int], seen@[x])
                        && lv[x] == lv[parent@[x] as int] + 1,
                    forall|x: int| start <= x < end ==> #[trigger] lv[x] == k,
                    forall|x: int| end <= x < seen@.len() ==> #[trigger] lv[x] == k + 1,
                    forall|w: u128| seen@.contains(w) <==> within(t, source, k, w) || (exists|f: int| start <= f < i
                        && #[trigger] usable(t, base[f], w)) || (exists|m: int| 0 <= m < j && nbrs@[m] == w
                        && usable(t, u, w)),
                    !seen@.contains(destination),
                    seen@.no_duplicates(),
                    forall|x: int| 0 <= x < seen@.len() ==> universe@.contains(#[trigger] seen@[x]),
                    forall|a: u128, w: u128| #[trigger] lookup(t.adjacency@, a).contains(w) ==> universe@.contains(w),
                    !within(t, source, k, destination),
                decreases nbrs@.len() - j,
            {
                let w = nbrs[j];
                let ok = link_active(topology, u, w);
                proof {
                    assert(nbrs@.contains(w)) by {
                        assert(nbrs@[j as int] == w);
                    }
                }
                let fresh = !occurs(&seen, w);
                if ok && fresh {
                    let ghost pre = seen@;
                    seen.push(w);
                    parent.push(i);
                    proof {
                        lv = lv.push(k + 1);
                        reveal(usable);
                        assert(usable(t, u, w));
                        assert(seen@[pre.len() as int] == w);
                        assert(seen@.subrange(0, end as int) =~= pre.subrange(0, end as int));
                        assert forall|a: int, b: int| 0 <= a < seen@.len() && 0 <= b < seen@.len() && a != b
                            implies seen@[a] != seen@[b] by {
                            if a < pre.len() && b < pre.len() {
                                assert(seen@[a] == pre[a] && seen@[b] == pre[b]);
                            } else if a < pre.len() {
                                assert(seen@[a] == pre[a]);
                                assert(pre.contains(pre[a]));
                            } else {
                                assert(seen@[b] == pre[b]);
                                assert(pre.contains(pre[b]));
                            }
                        }
                        assert forall|x: u128| seen@.contains(x) <==> within(t, source, k, x) || (exists|f: int| start <= f < i
                            && #[trigger] usable(t, base[f], x)) || (exists|m: int| 0 <= m < j + 1 && nbrs@[m] == x
                            && usable(t, u, x)) by {
                            if seen@.contains(x) && x != w {
                                let m = choose|m: int| 0 <= m < seen@.len() && seen@[m] == x;
                                assert(pre[m] == x);
                                assert(pre.contains(x));
                            }
                            if pre.contains(x) {
                                let m = choose|m: int| 0 <= m < pre.len() && pre[m] == x;
                                assert(seen@[m] == x);
                            }
                            if x == w {
                                assert(nbrs@[j as int] == x);
                            }
                        }
                    }
                    if w == destination {
                        let idx = seen.len() - 1;
                        let path = trace_back(topology, &seen, &parent, idx, Ghost(lv));
                        proof {
                            assert(lv[idx as int] == k + 1);
                            assert forall|q: Seq<u128>| #[trigger] route(t, q, source, destination) implies path@.len()
                                <= q.len() by {
                                lemma_route_within(t, q, source, destination);
                                if q.len() - 1 <= k {
                                    lemma_within_mono(t, source, (q.len() - 1) as nat, k, destination);
                                }
                            }
                        }
                        return Ok(path);
                    }
                } else {
                    proof {
                        assert forall|x: u128| seen@.contains(x) <==> within(t, source, k, x) || (exists|f: int| start <= f < i
                            && #[trigger] usable(t, base[f], x)) || (exists|m: int| 0 <= m < j + 1 && nbrs@[m] == x
                            && usable(t, u, x)) by {
                            if x == w && usable(t, u, x) {
                                reveal(usable);
                                assert(ok);
                                assert(seen@.contains(x));
                            }
                            if (exists|m: int| 0 <= m < j + 1 && nbrs@[m] == x && usable(t, u, x)) && x != w {
                                let m = choose|m: int| 0 <= m < j + 1 && nbrs@[m] == x && usable(t, u, x);
                                assert(m < j);
                            }
                        }
                    }
                }
                j = j + 1;
            }
            proof {
                assert forall|x: u128| seen@.contains(x) <==> within(t, source, k, x) || exists|f: int| start <= f < i + 1
                    && #[trigger] usable(t, base[f], x) by {
                    if usable(t, base[i as int], x) {
                        reveal(usable);
                        assert(lookup(t.adjacency@, u).contains(x));
                        let m = choose|m: int| 0 <= m < nbrs@.len() && nbrs@[m] == x;
                    }
                    if exists|m: int| 0 <= m < nbrs@.len() && nbrs@[m] == x && usable(t, u, x) {
                        assert(usable(t, base[i as int], x));
                    }
                }
            }
            i = i + 1;
        }
        if seen.len() == end {
            proof {
                // nothing new: reachability has stopped growing
                assert(seen@ =~= base);
                assert forall|x: u128| within(t, source, k + 1, x) implies within(t, source, k, x) by {
                    lemma_within_succ(t, source, k, x);
                    if !within(t, source, k, x) {
                        assert(step(t, source, k, x));
                        let u = choose|u: u128| #[trigger] within(t, source, k, u) && usable(t, u, x);
                        assert(base.contains(u));
                        let f = choose|f: int| 0 <= f < base.len() && base[f] == u;
                        if f < start {
                            assert(within(t, source, (k - 1) as nat, u));
                            assert(step(t, source, (k - 1) as nat, x));
                            lemma_within_succ(t, source, (k - 1) as nat, x);
                            assert(within(t, source, k, x));
                        } else {
                            assert(usable(t, base[f], x));
                            assert(seen@.contains(x));
                            assert(base.contains(x));
                        }
                    }
                }
                assert forall|q: Seq<u128>| !#[trigger] route(t, q, source, destination) by {
                    if route(t, q, source, destination) {
                        lemma_route_within(t, q, source, destination);
                        if q.len() - 1 <= k {
                            lemma_within_mono(t, source, (q.len() - 1) as nat, k, destination);
                        } else {
                            lemma_within_stable(t, source, k, (q.len() - 1) as nat, destination);
                        }
                    }
                }
            }
            return Err(String::from_str("No path found"));
        }
        proof {
            assert forall|x: u128| seen@.contains(x) <==> within(t, source, k + 1, x) by {
                lemma_within_succ(t, source, k, x);
                if seen@.contains(x) && !within(t, source, k, x) {
                    let f = choose|f: int| start <= f < end && #[trigger] usable(t, base[f], x);
                    assert(base.contains(base[f]));
                    assert(within(t, source, k, base[f]));
                    assert(step(t, source, k, x));
                }
                if within(t, source, k + 1, x) && !within(t, source, k, x) {
                    assert(step(t, source, k, x));
                    let u = choose|u: u128| #[trigger] within(t, source, k, u) && usable(t, u, x);
                    assert(base.contains(u));
                    let f = choose|f: int| 0 <= f < base.len() && base[f] == u;
                    if f < start {
                        assert(within(t, source, (k - 1) as nat, u));
                        assert(step(t, source, (k - 1) as nat, x));
                        lemma_within_succ(t, source, (k - 1) as nat, x);
                        assert(within(t, source, k, x));
                    } else {
                        assert(usable(t, base[f], x));
                    }
                }
            }
            assert forall|f: int| 0 <= f < end implies within(t, source, k, #[trigger] seen@[f]) by {
                assert(seen@[f] == base[f]);
                assert(base.contains(base[f]));
            }
            assert(!within(t, source, k + 1, destination));
        }
        proof {
            lemma_seen_bounded(seen@, universe@);
        }
        start = end;
        end = seen.len();
        proof {
            k = k + 1;
        }
    }
}

/// The route that the parent links give from the start (index 0) to `seen[last]`.
fn trace_back(
    topology: &NetworkTopology,
    seen: &Vec<u128>,
    parent: &Vec<usize>,
    last: usize,
    Ghost(lv): Ghost<Seq<nat>>,
) -> (path: Vec<u128>)
    requires
        last < seen@.len(),
        seen@.len() == parent@.len(),
        seen@.len() == lv.len(),
        lv[0] == 0,
        forall|x: int| 1 <= x < seen@.len() ==> (#[trigger] parent@[x]) < x && usable(*topology, seen@[parent@[x] as int],
            seen@[x]) && lv[x] == lv[parent@[x] as int] + 1,
    ensures
        route(*topology, path@, seen@[0], seen@[last as int]),
        path@.len() == lv[last as int] + 1,
{
    let ghost t = *topology;
    let mut path: Vec<u128> = Vec::new();
    path.push(seen[last]);
    let mut cur: usize = last;
    while cur != 0
        invariant
            cur < seen@.len(),
            seen@.len() == parent@.len(),
            seen@.len() == lv.len(),
            lv[0] == 0,
            forall|x: int| 1 <= x < seen@.len() ==> (#[trigger] parent@[x]) < x && usable(t, seen@[parent@[x] as int],
                seen@[x]) && lv[x] == lv[parent@[x] as int] + 1,
            route(t, path@, seen@[cur as int], seen@[last as int]),
            path@.len() + lv[cur as int] == lv[last as int] + 1,
        decreases cur,
    {
        let p = parent[cur];
        let ghost old_path = path@;
        path.insert(0, seen[p]);
        proof {
            assert(usable(t, seen@[p as int], seen@[cur as int]));
            assert(path@ =~= seq![seen@[p as int]] + old_path);
            assert forall|i: int| 0 <= i < path@.len() - 1 implies usable(t, #[trigger] path@[i], path@[i + 1]) by {
                if i == 0 {
                    assert(path@[1] == old_path[0]);
                } else {
                    assert(path@[i] == old_path[i - 1] && path@[i + 1] == old_path[i]);
                }
            }
        }
        cur = p;
    }
    path
}

/// Link `id` is the first one joining `a` and `b`.
pub open spec fn hop_link(ls: Seq<NetworkLink>, a: u128, b: u128, id: u128) -> bool {
    first_link(ls, a, b) matches Some(l) && l.id == id
}

/// The ids of the links along `path`, hop by hop (the first link joining each pair).
pub fn route_links(topology: &NetworkTopology, path: &Vec<u128>) -> (r: Result<Vec<u128>, String>)
    ensures
        path@.len() < 2 ==> (r matches Err(m) && m@ == "Invalid path (< 2 nodes)"@),
        path@.len() >= 2 ==> match r {
            Ok(ids) => ids@.len() == path@.len() - 1 && forall|i: int| 0 <= i < ids@.len() ==> hop_link(
                topology.links@, path@[i], path@[i + 1], #[trigger] ids@[i]),
            Err(m) => m@ == "Link not found"@ && exists|i: int| 0 <= i < path@.len() - 1 && #[trigger] first_link(
                topology.links@, path@[i], path@[i + 1]) is None,
        },
{
    if path.len() < 2 {
        return Err(String::from_str("Invalid path (< 2 nodes)"));
    }
    let mut ids: Vec<u128> = Vec::new();
    let mut i: usize = 0;
    while i < path.len() - 1
        invariant
            path@.len() >= 2,
            i <= path@.len() - 1,
            ids@.len() == i,
            forall|x: int| 0 <= x < i ==> hop_link(topology.links@, path@[x], path@[x + 1], #[trigger] ids@[x]),
        decreases path@.len() - 1 - i,
    {
        match topology.find_link(path[i], path[i + 1]) {
            Some(l) => {
                ids.push(l.id);
            },
            None => {
                return Err(String::from_str("Link not found"));
            },
        }
        i = i + 1;
    }
    Ok(ids)
}

} // verus!
