//! Causal ordering of the time slots of a quantum comb.
use vstd::prelude::*;
use vstd::string::*;
use crate::ids::new_uuid;
use crate::text::{decimal, decimal_string};

verus! {

/// How many entries of a visited-map are still unvisited.
pub open spec fn unvisited_count(s: Seq<bool>) -> nat
    decreases s.len(),
{
    if s.len() == 0 {
        0
    } else {
        unvisited_count(s.drop_last()) + if s.last() {
            0nat
        } else {
            1nat
        }
    }
}

proof fn lemma_unvisited_mark(s: Seq<bool>, i: int)
    requires
        0 <= i < s.len(),
        !s[i],
    ensures
        unvisited_count(s.update(i, true)) + 1 == unvisited_count(s),
    decreases s.len(),
{
    let t = s.update(i, true);
    if i == s.len() - 1 {
        assert(t.drop_last() =~= s.drop_last());
    } else {
        assert(t.drop_last() =~= s.drop_last().update(i, true));
        lemma_unvisited_mark(s.drop_last(), i);
    }
}

proof fn lemma_unvisited_monotone(s: Seq<bool>, t: Seq<bool>)
    requires
        s.len() == t.len(),
        forall|i: int| 0 <= i < s.len() && s[i] ==> t[i],
    ensures
        unvisited_count(t) <= unvisited_count(s),
    decreases s.len(),
{
    if s.len() > 0 {
        lemma_unvisited_monotone(s.drop_last(), t.drop_last());
    }
}

proof fn lemma_unvisited_all(s: Seq<bool>, b: bool)
    requires
        forall|i: int| 0 <= i < s.len() ==> s[i] == b,
    ensures
        unvisited_count(s) == if b {
            0
        } else {
            s.len()
        },
    decreases s.len(),
{
    if s.len() > 0 {
        lemma_unvisited_all(s.drop_last(), b);
    }
}

/// Causal ordering of operations: precedence constraints between time slots.
#[derive(Debug)]
pub struct CausalOrder {
    /// Number of time slots
    pub num_slots: usize,
    /// Precedence relations: (earlier, later)
    pub precedence: Vec<(usize, usize)>,
    /// Slots that are filled
    pub filled_slots: Vec<bool>,
}

impl CausalOrder {
    /// Every slot has a fill flag and every precedence names existing slots.
    pub open spec fn wf(&self) -> bool {
        &&& self.filled_slots@.len() == self.num_slots
        &&& forall|j: int|
            0 <= j < self.precedence@.len() ==> (#[trigger] self.precedence@[j]).0
                < self.num_slots && self.precedence@[j].1 < self.num_slots
    }

    /// `a` must happen before `b`.
    pub open spec fn has_edge(&self, a: usize, b: usize) -> bool {
        exists|j: int| 0 <= j < self.precedence@.len() && #[trigger] self.precedence@[j] == (a, b)
    }

    /// A walk through the precedence graph, along its edges.
    pub open spec fn is_path(&self, p: Seq<usize>) -> bool {
        &&& p.len() >= 1
        &&& forall|k: int| 0 <= k < p.len() - 1 ==> self.has_edge(#[trigger] p[k], p[k + 1])
    }

    /// `b` can be reached from `a` by following zero or more precedences.
    pub open spec fn reachable(&self, a: usize, b: usize) -> bool {
        exists|p: Seq<usize>| #[trigger] self.is_path(p) && p[0] == a && p.last() == b
    }

    /// No precedence closes a cycle.
    pub open spec fn is_acyclic(&self) -> bool {
        forall|j: int|
            0 <= j < self.precedence@.len() ==> !self.reachable(
                (#[trigger] self.precedence@[j]).1,
                self.precedence@[j].0,
            )
    }

    /// Every precedence goes from a lower slot index to a higher one.
    pub open spec fn is_increasing(&self) -> bool {
        forall|j: int|
            0 <= j < self.precedence@.len() ==> (#[trigger] self.precedence@[j]).0
                < self.precedence@[j].1
    }

    /// Slot `slot` may be filled: every slot that must precede it is filled.
    pub open spec fn spec_can_insert(&self, slot: usize) -> bool {
        forall|j: int|
            0 <= j < self.precedence@.len() && (#[trigger] self.precedence@[j]).1 == slot
                ==> self.filled_slots@[self.precedence@[j].0 as int]
    }

    /// Position in `o` of every edge's source comes after that of its target.
    pub open spec fn post_ordered(&self, o: Seq<usize>) -> bool {
        forall|j: int, k: int|
            0 <= j < self.precedence@.len() && 0 <= k < o.len() && #[trigger] o[k]
                == #[trigger] self.precedence@[j].0 ==> exists|k2: int|
                0 <= k2 < k && o[k2] == self.precedence@[j].1
    }

    proof fn lemma_edge_reach(&self, a: usize, b: usize)
        requires
            self.has_edge(a, b),
        ensures
            self.reachable(a, b),
    {
        let p = seq![a, b];
        assert(self.has_edge(p[0], p[1]));
        assert(self.is_path(p));
    }

    proof fn lemma_reach_refl(&self, a: usize)
        ensures
            self.reachable(a, a),
    {
        let p = seq![a];
        assert(self.is_path(p));
    }

    proof fn lemma_reach_trans(&self, a: usize, b: usize, c: usize)
        requires
            self.reachable(a, b),
            self.reachable(b, c),
        ensures
            self.reachable(a, c),
    {
        let p1 = choose|p: Seq<usize>| #[trigger] self.is_path(p) && p[0] == a && p.last() == b;
        let p2 = choose|p: Seq<usize>| #[trigger] self.is_path(p) && p[0] == b && p.last() == c;
        let p = p1 + p2.drop_first();
        assert forall|k: int| 0 <= k < p.len() - 1 implies self.has_edge(#[trigger] p[k], p[k + 1]) by {
            if k < p1.len() - 1 {
                assert(p[k] == p1[k] && p[k + 1] == p1[k + 1]);
            } else if k == p1.len() - 1 {
                assert(p[k] == b);
                assert(p[k + 1] == p2[1]);
                assert(self.has_edge(p2[0], p2[1]));
            } else {
                let m = k - p1.len() + 1;
                assert(p[k] == p2[m] && p[k + 1] == p2[m + 1]);
            }
        }
        assert(self.is_path(p));
        if p2.len() == 1 {
            assert(p =~= p1);
        }
    }

    proof fn lemma_edge_then_reach(&self, a: usize, b: usize, c: usize)
        requires
            self.has_edge(a, b),
            self.reachable(b, c),
        ensures
            self.reachable(a, c),
    {
        self.lemma_edge_reach(a, b);
        self.lemma_reach_trans(a, b, c);
    }

    /// A set of slots that no precedence leaves cannot reach a slot outside it.
    proof fn lemma_closed_blocks(&self, c: Seq<bool>, a: usize, b: usize)
        requires
            self.wf(),
            c.len() == self.num_slots,
            a < self.num_slots,
            c[a as int],
            !c[b as int] || b >= self.num_slots,
            forall|j: int|
                0 <= j < self.precedence@.len() && c[(#[trigger] self.precedence@[j]).0 as int]
                    ==> c[self.precedence@[j].1 as int],
        ensures
            !self.reachable(a, b),
    {
        if self.reachable(a, b) {
            let p = choose|p: Seq<usize>| #[trigger] self.is_path(p) && p[0] == a && p.last() == b;
            assert forall|k: int| 0 <= k < p.len() implies p[k] < self.num_slots && c[
                #[trigger] p[k] as int] by {
                self.lemma_path_in_closed(c, p, k);
            }
            assert(p[p.len() - 1] == b);
        }
    }

    proof fn lemma_path_in_closed(&self, c: Seq<bool>, p: Seq<usize>, k: int)
        requires
            self.wf(),
            c.len() == self.num_slots,
            self.is_path(p),
            p[0] < self.num_slots,
            c[p[0] as int],
            0 <= k < p.len(),
            forall|j: int|
                0 <= j < self.precedence@.len() && c[(#[trigger] self.precedence@[j]).0 as int]
                    ==> c[self.precedence@[j].1 as int],
        ensures
            p[k] < self.num_slots && c[p[k] as int],
        decreases k,
    {
        if k > 0 {
            self.lemma_path_in_closed(c, p, k - 1);
            assert(self.has_edge(p[k - 1], p[k]));
            let j = choose|j: int|
                0 <= j < self.precedence@.len() && #[trigger] self.precedence@[j] == (
                    p[k - 1],
                    p[k],
                );
            assert(self.precedence@[j].0 == p[k - 1]);
        }
    }

    /// Along an increasing order, reachability never goes to a lower slot.
    proof fn lemma_increasing_reach(&self, a: usize, b: usize)
        requires
            self.is_increasing(),
            self.reachable(a, b),
        ensures
            a <= b,
    {
        let p = choose|p: Seq<usize>| #[trigger] self.is_path(p) && p[0] == a && p.last() == b;
        assert forall|k: int| 0 <= k < p.len() implies a <= #[trigger] p[k] by {
            self.lemma_increasing_path(p, k);
        }
        assert(a <= p[p.len() - 1]);
    }

    proof fn lemma_increasing_path(&self, p: Seq<usize>, k: int)
        requires
            self.is_increasing(),
            self.is_path(p),
            0 <= k < p.len(),
        ensures
            p[0] <= p[k],
        decreases k,
    {
        if k > 0 {
            self.lemma_increasing_path(p, k - 1);
            assert(self.has_edge(p[k - 1], p[k]));
            let j = choose|j: int|
                0 <= j < self.precedence@.len() && #[trigger] self.precedence@[j] == (
                    p[k - 1],
                    p[k],
                );
            assert(self.precedence@[j].0 < self.precedence@[j].1);
        }
    }

    /// Creates an order over `num_slots` empty slots with no precedence.
    pub fn new(num_slots: usize) -> (r: Self)
        ensures
            r.wf(),
            r.num_slots == num_slots,
            r.precedence@.len() == 0,
            r.is_increasing(),
            forall|i: int| 0 <= i < num_slots ==> !r.filled_slots@[i],
    {
        let filled_slots = vec![false; num_slots];
        CausalOrder { num_slots, precedence: Vec::new(), filled_slots }
    }

    /// Whether slot `slot` can be filled: every slot required before it is filled.
    pub fn can_insert(&self, slot: usize) -> (r: bool)
        requires
            forall|j: int|
                0 <= j < self.precedence@.len() && (#[trigger] self.precedence@[j]).1 == slot
                    ==> self.precedence@[j].0 < self.filled_slots@.len(),
        ensures
            r == self.spec_can_insert(slot),
    {
        let mut j: usize = 0;
        while j < self.precedence.len()
            invariant
                forall|k: int|
                    0 <= k < self.precedence@.len() && (#[trigger] self.precedence@[k]).1 == slot
                        ==> self.precedence@[k].0 < self.filled_slots@.len(),
                j <= self.precedence@.len(),
                forall|i: int|
                    0 <= i < j && (#[trigger] self.precedence@[i]).1 == slot
                        ==> self.filled_slots@[self.precedence@[i].0 as int],
            decreases self.precedence@.len() - j,
        {
            let (earlier, later) = self.precedence[j];
            if later == slot && !self.filled_slots[earlier] {
                return false;
            }
            j = j + 1;
        }
        true
    }

    /// Marks `slot` as filled; slots out of range are ignored.
    pub fn mark_filled(&mut self, slot: usize)
        requires
            old(self).wf(),
        ensures
            final(self).wf(),
            final(self).num_slots == old(self).num_slots,
            final(self).precedence@ == old(self).precedence@,
            final(self).filled_slots@ == if slot < old(self).num_slots {
                old(self).filled_slots@.update(slot as int, true)
            } else {
                old(self).filled_slots@
            },
    {
        if slot < self.num_slots {
            self.filled_slots.set(slot, true);
        }
    }

    /// Depth-first search: is there a path from `from` to `to` through unvisited slots?
    fn has_path(&self, from: usize, to: usize, visited: &mut Vec<bool>) -> (r: bool)
        requires
            self.wf(),
            from < self.num_slots,
            to < self.num_slots,
            old(visited)@.len() == self.num_slots,
            !old(visited)@[from as int],
            !old(visited)@[to as int],
        ensures
            final(visited)@.len() == self.num_slots,
            r ==> self.reachable(from, to),
            !r ==> {
                &&& final(visited)@[from as int]
                &&& !final(visited)@[to as int]
                &&& forall|u: int|
                    0 <= u < self.num_slots && old(visited)@[u] ==> final(visited)@[u]
                &&& forall|j: int|
                    0 <= j < self.precedence@.len() && final(visited)@[(
                    #[trigger] self.precedence@[j]).0 as int] && !old(
                    visited,
                )@[self.precedence@[j].0 as int] ==> final(visited)@[self.precedence@[j].1 as int]
            },
        decreases unvisited_count(old(visited)@),
    {
        if from == to {
            proof {
                self.lemma_reach_refl(from);
            }
            return true;
        }
        let ghost v0 = visited@;
        assert(v0 == old(visited)@);
        visited.set(from, true);
        proof {
            lemma_unvisited_mark(v0, from as int);
        }
        let ghost v1 = visited@;
        let mut j: usize = 0;
        while j < self.precedence.len()
            invariant
                self.wf(),
                from < self.num_slots,
                to < self.num_slots,
                from != to,
                j <= self.precedence@.len(),
                v0.len() == self.num_slots,
                v0 == old(visited)@,
                v1 == v0.update(from as int, true),
                unvisited_count(v1) < unvisited_count(v0),
                visited@.len() == self.num_slots,
                visited@[from as int],
                !visited@[to as int],
                forall|u: int| 0 <= u < self.num_slots && v1[u] ==> visited@[u],
                forall|i: int|
                    0 <= i < self.precedence@.len() && visited@[(
                    #[trigger] self.precedence@[i]).0 as int] && !v0[self.precedence@[i].0 as int]
                        && self.precedence@[i].0 != from ==> visited@[self.precedence@[i].1 as int],
                forall|i: int|
                    0 <= i < j && (#[trigger] self.precedence@[i]).0 == from
                        ==> visited@[self.precedence@[i].1 as int],
            decreases self.precedence@.len() - j,
        {
            let (earlier, later) = self.precedence[j];
            if earlier == from && !visited[later] {
                let ghost vb = visited@;
                proof {
                    lemma_unvisited_monotone(v1, vb);
                    assert(unvisited_count(vb) < unvisited_count(v0));
                }
                let found = self.has_path(later, to, visited);
                if found {
                    proof {
                        assert(self.has_edge(from, later)) by {
                            assert(self.precedence@[j as int] == (from, later));
                        }
                        self.lemma_edge_then_reach(from, later, to);
                    }
                    return true;
                }
                assert(visited@[later as int]);
            }
            j = j + 1;
        }
        assert forall|i: int|
            0 <= i < self.precedence@.len() && visited@[(
            #[trigger] self.precedence@[i]).0 as int] && !v0[self.precedence@[i].0 as int]
                implies visited@[self.precedence@[i].1 as int] by {
            if self.precedence@[i].0 == from {
            }
        }
        assert(forall|u: int| 0 <= u < self.num_slots && v0[u] ==> v1[u]);
        false
    }

    /// Whether adding `from -> to` would close a cycle (a path `to -> from` exists).
    fn creates_cycle(&self, from: usize, to: usize) -> (r: bool)
        requires
            self.wf(),
            from < self.num_slots,
            to < self.num_slots,
        ensures
            r == self.reachable(to, from),
    {
        let mut visited = vec![false; self.num_slots];
        let r = self.has_path(to, from, &mut visited);
        proof {
            if !r {
                self.lemma_closed_blocks(visited@, to, from);
            }
        }
        r
    }

    /// Adds the constraint that `earlier` precedes `later`.
    pub fn add_precedence(&mut self, earlier: usize, later: usize) -> (r: Result<(), String>)
        requires
            old(self).wf(),
        ensures
            final(self).wf(),
            final(self).num_slots == old(self).num_slots,
            final(self).filled_slots@ == old(self).filled_slots@,
            r is Ok <==> (earlier < old(self).num_slots && later < old(self).num_slots && earlier
                < later && !old(self).reachable(later, earlier)),
            r is Ok ==> final(self).precedence@ == old(self).precedence@.push((earlier, later)),
            r is Err ==> final(self).precedence@ == old(self).precedence@,
            old(self).is_increasing() ==> final(self).is_increasing(),
            (earlier >= old(self).num_slots || later >= old(self).num_slots) ==> (r matches Err(
                e,
            ) && e@ == "Slot index out of bounds"@),
            (earlier < old(self).num_slots && later < old(self).num_slots && earlier >= later)
                ==> (r matches Err(e) && e@ == "Invalid precedence: earlier must be < later"@),
            (earlier < old(self).num_slots && later < old(self).num_slots && earlier < later
                && old(self).reachable(later, earlier)) ==> (r matches Err(e) && e@
                == "Precedence creates cycle"@),
    {
        if earlier >= self.num_slots || later >= self.num_slots {
            return Err(String::from_str("Slot index out of bounds"));
        }
        if earlier >= later {
            return Err(String::from_str("Invalid precedence: earlier must be < later"));
        }
        if self.creates_cycle(earlier, later) {
            return Err(String::from_str("Precedence creates cycle"));
        }
        self.precedence.push((earlier, later));
        proof {
            if old(self).is_increasing() {
                assert forall|j: int| 0 <= j < self.precedence@.len() implies (
                #[trigger] self.precedence@[j]).0 < self.precedence@[j].1 by {
                    if j < old(self).precedence@.len() {
                        assert(self.precedence@[j] == old(self).precedence@[j]);
                    }
                }
            }
        }
        Ok(())
    }

    /// The order is consistent when no precedence closes a cycle.
    pub fn is_consistent(&self) -> (r: bool)
        requires
            self.wf(),
        ensures
            r == self.is_acyclic(),
    {
        let mut j: usize = 0;
        while j < self.precedence.len()
            invariant
                self.wf(),
                j <= self.precedence@.len(),
                forall|i: int|
                    0 <= i < j ==> !self.reachable(
                        (#[trigger] self.precedence@[i]).1,
                        self.precedence@[i].0,
                    ),
            decreases self.precedence@.len() - j,
        {
            let (earlier, later) = self.precedence[j];
            if self.creates_cycle(earlier, later) {
                return false;
            }
            j = j + 1;
        }
        true
    }

    /// Depth-first visit from `slot`, appending each slot once all its successors are placed.
    fn dfs_visit(&self, slot: usize, visited: &mut Vec<bool>, order: &mut Vec<usize>)
        requires
            self.wf(),
            slot < self.num_slots,
            old(visited)@.len() == self.num_slots,
            !old(visited)@[slot as int],
            forall|k: int|
                0 <= k < old(order)@.len() ==> (#[trigger] old(order)@[k]) < self.num_slots && old(
                    visited,
                )@[old(order)@[k] as int],
            old(order)@.no_duplicates(),
            forall|u: int|
                0 <= u < self.num_slots && old(visited)@[u] && !old(order)@.contains(u as usize)
                    ==> self.reachable(u as usize, slot),
            self.is_acyclic() ==> self.post_ordered(old(order)@),
        ensures
            final(visited)@.len() == self.num_slots,
            final(visited)@[slot as int],
            forall|u: int| 0 <= u < self.num_slots && old(visited)@[u] ==> final(visited)@[u],
            final(order)@.len() >= old(order)@.len(),
            final(order)@.subrange(0, old(order)@.len() as int) == old(order)@,
            final(order)@.len() - old(order)@.len() == unvisited_count(old(visited)@)
                - unvisited_count(final(visited)@),
            forall|k: int|
                0 <= k < final(order)@.len() ==> (#[trigger] final(order)@[k]) < self.num_slots
                    && final(visited)@[final(order)@[k] as int],
            final(order)@.no_duplicates(),
            final(order)@.contains(slot),
            forall|u: int|
                0 <= u < self.num_slots ==> ((final(visited)@[u] && !final(order)@.contains(
                    u as usize,
                )) == (old(visited)@[u] && !old(order)@.contains(u as usize))),
            self.is_acyclic() ==> self.post_ordered(final(order)@),
        decreases unvisited_count(old(visited)@),
    {
        let ghost v0 = visited@;
        let ghost o0 = order@;
        assert(v0 == old(visited)@);
        assert(!o0.contains(slot));
        visited.set(slot, true);
        proof {
            lemma_unvisited_mark(v0, slot as int);
        }
        let ghost v1 = visited@;
        let mut j: usize = 0;
        while j < self.precedence.len()
            invariant
                self.wf(),
                slot < self.num_slots,
                j <= self.precedence@.len(),
                v0 == old(visited)@,
                o0 == old(order)@,
                v0.len() == self.num_slots,
                !v0[slot as int],
                !o0.contains(slot),
                v1 == v0.update(slot as int, true),
                unvisited_count(v1) + 1 == unvisited_count(v0),
                forall|u: int|
                    0 <= u < self.num_slots && v0[u] && !o0.contains(u as usize) ==> self.reachable(
                        u as usize,
                        slot,
                    ),
                visited@.len() == self.num_slots,
                forall|u: int| 0 <= u < self.num_slots && v1[u] ==> visited@[u],
                order@.len() >= o0.len(),
                order@.subrange(0, o0.len() as int) == o0,
                order@.len() - o0.len() == unvisited_count(v1) - unvisited_count(visited@),
                forall|k: int|
                    0 <= k < order@.len() ==> (#[trigger] order@[k]) < self.num_slots
                        && visited@[order@[k] as int],
                order@.no_duplicates(),
                forall|u: int|
                    0 <= u < self.num_slots ==> ((visited@[u] && !order@.contains(u as usize)) == (
                    v1[u] && !o0.contains(u as usize))),
                self.is_acyclic() ==> self.post_ordered(order@),
                self.is_acyclic() ==> forall|i: int|
                    0 <= i < j && (#[trigger] self.precedence@[i]).0 == slot ==> order@.contains(
                        self.precedence@[i].1,
                    ),
            decreases self.precedence@.len() - j,
        {
            let (earlier, later) = self.precedence[j];
            proof {
                assert(self.precedence@[j as int] == (earlier, later));
            }
            if earlier == slot && !visited[later] {
                let ghost vb = visited@;
                let ghost ob = order@;
                proof {
                    lemma_unvisited_monotone(v1, vb);
                    assert(self.has_edge(slot, later));
                    self.lemma_edge_reach(slot, later);
                    assert forall|u: int|
                        0 <= u < self.num_slots && vb[u] && !ob.contains(u as usize) implies self.reachable(
                        u as usize,
                        later,
                    ) by {
                        if u != slot {
                            assert(v1[u] == v0[u]);
                            assert(v0[u] && !o0.contains(u as usize));
                            self.lemma_reach_trans(u as usize, slot, later);
                        }
                    }
                }
                self.dfs_visit(later, visited, order);
                proof {
                    assert forall|u: int|
                        0 <= u < o0.len() implies #[trigger] order@[u] == o0[u] by {
                        assert(order@.subrange(0, ob.len() as int)[u] == ob[u]);
                        assert(ob.subrange(0, o0.len() as int)[u] == o0[u]);
                    }
                    assert(order@.subrange(0, o0.len() as int) =~= o0);
                }
            } else if earlier == slot {
                proof {
                    if self.is_acyclic() && !order@.contains(later) {
                        assert(visited@[later as int]);
                        assert(v1[later as int] && !o0.contains(later));
                        if later == slot {
                            self.lemma_reach_refl(slot);
                        } else {
                            assert(v0[later as int]);
                        }
                        assert(!self.reachable(self.precedence@[j as int].1, self.precedence@[j as int].0));
                    }
                }
            }
            j = j + 1;
        }
        let ghost opre = order@;
        proof {
            assert(v1[slot as int]);
            assert(visited@[slot as int]);
            assert(!opre.contains(slot));
        }
        order.push(slot);
        proof {
            assert forall|u: int| 0 <= u < o0.len() implies #[trigger] order@[u] == o0[u] by {
                assert(opre.subrange(0, o0.len() as int)[u] == o0[u]);
            }
            assert(order@.subrange(0, o0.len() as int) =~= o0);
            assert(order@[order@.len() - 1] == slot);
            assert forall|a: int, b: int|
                0 <= a < order@.len() && 0 <= b < order@.len() && a != b implies order@[a]
                != order@[b] by {
                if a < opre.len() && b < opre.len() {
                    assert(order@[a] == opre[a] && order@[b] == opre[b]);
                } else if a < opre.len() {
                    assert(order@[a] == opre[a]);
                } else if b < opre.len() {
                    assert(order@[b] == opre[b]);
                }
            }
            assert forall|u: int|
                0 <= u < self.num_slots implies ((visited@[u] && !order@.contains(u as usize)) == (
            v0[u] && !o0.contains(u as usize))) by {
                if u == slot {
                    assert(order@[order@.len() - 1] == slot);
                    assert(order@.contains(slot));
                } else {
                    assert(v1[u] == v0[u]);
                    if order@.contains(u as usize) {
                        let k = choose|k: int| 0 <= k < order@.len() && order@[k] == u as usize;
                        assert(k < opre.len());
                        assert(opre[k] == u as usize);
                        assert(opre.contains(u as usize));
                    }
                    if opre.contains(u as usize) {
                        let k = choose|k: int| 0 <= k < opre.len() && opre[k] == u as usize;
                        assert(order@[k] == u as usize);
                        assert(order@.contains(u as usize));
                    }
                }
            }
            if self.is_acyclic() {
                assert forall|jj: int, k: int|
                    0 <= jj < self.precedence@.len() && 0 <= k < order@.len() && #[trigger] order@[k]
                        == #[trigger] self.precedence@[jj].0 implies exists|k2: int|
                    0 <= k2 < k && order@[k2] == self.precedence@[jj].1 by {
                    if k < opre.len() {
                        assert(opre[k] == order@[k]);
                        let k2 = choose|k2: int| 0 <= k2 < k && opre[k2] == self.precedence@[jj].1;
                        assert(order@[k2] == opre[k2]);
                    } else {
                        assert(order@[k] == slot);
                        assert(opre.contains(self.precedence@[jj].1));
                        let k2 = choose|k2: int|
                            0 <= k2 < opre.len() && opre[k2] == self.precedence@[jj].1;
                        assert(order@[k2] == opre[k2]);
                    }
                }
            }
        }
    }

    /// A topological order of all slots: every slot appears once, and in an acyclic
    /// order every precedence's earlier slot comes before its later one.
    pub fn get_order(&self) -> (r: Vec<usize>)
        requires
            self.wf(),
        ensures
            r@.len() == self.num_slots,
            r@.no_duplicates(),
            forall|k: int| 0 <= k < r@.len() ==> #[trigger] r@[k] < self.num_slots,
            forall|s: usize| s < self.num_slots ==> r@.contains(s),
            self.is_acyclic() ==> forall|j: int, p: int, q: int|
                0 <= j < self.precedence@.len() && 0 <= p < r@.len() && 0 <= q < r@.len()
                    && #[trigger] r@[p] == (#[trigger] self.precedence@[j]).0 && #[trigger] r@[q]
                    == self.precedence@[j].1 ==> p < q,
    {
        let n = self.num_slots;
        let mut visited = vec![false; n];
        let mut order: Vec<usize> = Vec::new();
        proof {
            lemma_unvisited_all(visited@, false);
        }
        let mut slot: usize = 0;
        while slot < n
            invariant
                self.wf(),
                n == self.num_slots,
                slot <= n,
                visited@.len() == n,
                order@.len() + unvisited_count(visited@) == n,
                forall|k: int|
                    0 <= k < order@.len() ==> (#[trigger] order@[k]) < n && visited@[order@[k] as int],
                order@.no_duplicates(),
                forall|u: int| 0 <= u < n && visited@[u] ==> order@.contains(u as usize),
                forall|t: int| 0 <= t < slot ==> visited@[t],
                self.is_acyclic() ==> self.post_ordered(order@),
            decreases n - slot,
        {
            if !visited[slot] {
                let ghost vb = visited@;
                let ghost ob = order@;
                self.dfs_visit(slot, &mut visited, &mut order);
                proof {
                    assert forall|u: int| 0 <= u < n && visited@[u] implies order@.contains(u as usize) by {
                        if !vb[u] {
                        } else {
                            let k = choose|k: int| 0 <= k < ob.len() && ob[k] == u as usize;
                            assert(order@.subrange(0, ob.len() as int)[k] == ob[k]);
                            assert(order@[k] == u as usize);
                        }
                    }
                }
            }
            slot = slot + 1;
        }
        proof {
            lemma_unvisited_all(visited@, true);
        }
        let len = order.len();
        let mut r: Vec<usize> = Vec::new();
        let mut i: usize = 0;
        while i < len
            invariant
                len == order@.len(),
                i <= len,
                r@.len() == i,
                forall|t: int| 0 <= t < i ==> r@[t] == order@[len - 1 - t],
            decreases len - i,
        {
            r.push(order[len - 1 - i]);
            i = i + 1;
        }
        proof {
            assert forall|s: usize| s < self.num_slots implies r@.contains(s) by {
                assert(visited@[s as int]);
                let k = choose|k: int| 0 <= k < order@.len() && order@[k] == s;
                assert(r@[len - 1 - k] == s);
            }
            assert forall|a: int, b: int| 0 <= a < r@.len() && 0 <= b < r@.len() && a != b implies r@[a]
                != r@[b] by {
                assert(r@[a] == order@[len - 1 - a]);
                assert(r@[b] == order@[len - 1 - b]);
            }
            assert forall|k: int| 0 <= k < r@.len() implies #[trigger] r@[k] < self.num_slots by {
                assert(r@[k] == order@[len - 1 - k]);
            }
            if self.is_acyclic() {
                assert forall|j: int, p: int, q: int|
                    0 <= j < self.precedence@.len() && 0 <= p < r@.len() && 0 <= q < r@.len()
                        && #[trigger] r@[p] == (#[trigger] self.precedence@[j]).0 && #[trigger] r@[q]
                        == self.precedence@[j].1 implies p < q by {
                    let kp = len - 1 - p;
                    let kq = len - 1 - q;
                    assert(order@[kp] == self.precedence@[j].0);
                    assert(order@[kq] == self.precedence@[j].1);
                    let k2 = choose|k2: int| 0 <= k2 < kp && order@[k2] == self.precedence@[j].1;
                    assert(k2 == kq);
                }
            }
        }
        r
    }

    /// An order whose precedences all point to later slots has no cycle,
    /// so it is consistent.
    pub proof fn law_increasing_is_acyclic(&self)
        requires
            self.wf(),
            self.is_increasing(),
        ensures
            self.is_acyclic(),
    {
        assert forall|j: int| 0 <= j < self.precedence@.len() implies !self.reachable(
            (#[trigger] self.precedence@[j]).1,
            self.precedence@[j].0,
        ) by {
            if self.reachable(self.precedence@[j].1, self.precedence@[j].0) {
                self.lemma_increasing_reach(self.precedence@[j].1, self.precedence@[j].0);
            }
        }
    }

    /// On an order built by `new` and `add_precedence`, a precedence between two existing
    /// slots is refused only when it does not point forward: it can never close a cycle.
    pub proof fn law_forward_precedence_never_cycles(&self, earlier: usize, later: usize)
        requires
            self.wf(),
            self.is_increasing(),
            earlier < later,
        ensures
            !self.reachable(later, earlier),
    {
        if self.reachable(later, earlier) {
            self.lemma_increasing_reach(later, earlier);
        }
    }
}


/// A quantum comb: channels plugged into the time slots of a causal order. (The channels
/// themselves, complex matrices, are values of type `C` to the comb.)
#[derive(Debug)]
pub struct QuantumComb<C> {
    pub id: u128,
    /// Inserted channels, in order of insertion
    pub channels: Vec<C>,
    pub causal_order: CausalOrder,
    pub num_slots: usize,
    /// Hilbert-space dimension of each slot
    pub slot_dimensions: Vec<usize>,
}

/// The message for a slot beyond the comb.
pub open spec fn slot_error_text(slot: nat) -> Seq<char> {
    "Slot "@ + decimal(slot) + " out of bounds"@
}

/// A comb fresh out of `new`: empty slots of dimension 2 and no precedence.
pub open spec fn fresh_comb<C>(c: QuantumComb<C>, num_slots: nat) -> bool {
    &&& c.num_slots == num_slots
    &&& c.causal_order.wf()
    &&& c.causal_order.num_slots == num_slots
    &&& c.causal_order.precedence@.len() == 0
    &&& c.channels@.len() == 0
    &&& c.slot_dimensions@ == Seq::new(num_slots, |i: int| 2usize)
    &&& forall|i: int| 0 <= i < num_slots ==> !c.causal_order.filled_slots@[i]
}

/// What linking two combs gives, when it succeeds: a comb of `n1 + n2 - 1` slots holding
/// clones of the first comb's channels in its first slots and of the second comb's channels
/// from slot `n1` on, those slots marked filled.
pub open spec fn linked_comb<C: Clone>(a: QuantumComb<C>, b: QuantumComb<C>, l: QuantumComb<C>) -> bool {
    let total = a.num_slots + b.num_slots - 1;
    let n1 = a.channels@.len();
    &&& l.num_slots == total
    &&& l.causal_order.wf()
    &&& l.causal_order.num_slots == total
    &&& l.causal_order.precedence@.len() == 0
    &&& l.slot_dimensions@ == Seq::new(total as nat, |i: int| 2usize)
    &&& l.channels@.len() == n1 + b.channels@.len()
    &&& forall|k: int| 0 <= k < n1 ==> cloned::<C>(a.channels@[k], #[trigger] l.channels@[k])
    &&& forall|k: int| 0 <= k < b.channels@.len() ==> cloned::<C>(b.channels@[k], #[trigger] l.channels@[n1 + k])
    &&& forall|s: int|
        0 <= s < total ==> (#[trigger] l.causal_order.filled_slots@[s] <==> (s < n1 || (a.num_slots <= s
            < a.num_slots + b.channels@.len())))
}

impl<C> QuantumComb<C> {
    /// The comb's order covers exactly its slots.
    pub open spec fn wf(&self) -> bool {
        &&& self.causal_order.wf()
        &&& self.causal_order.num_slots == self.num_slots
    }

    /// A comb of `num_slots` empty qubit slots.
    pub fn new(num_slots: usize) -> (r: Self)
        ensures
            r.wf(),
            fresh_comb(r, num_slots as nat),
    {
        let mut slot_dimensions: Vec<usize> = Vec::new();
        let mut i: usize = 0;
        while i < num_slots
            invariant
                i <= num_slots,
                slot_dimensions@ == Seq::new(i as nat, |k: int| 2usize),
            decreases num_slots - i,
        {
            slot_dimensions.push(2);
            i = i + 1;
            assert(slot_dimensions@ =~= Seq::new(i as nat, |k: int| 2usize));
        }
        QuantumComb {
            id: new_uuid(),
            channels: Vec::new(),
            causal_order: CausalOrder::new(num_slots),
            num_slots,
            slot_dimensions,
        }
    }

    /// Inserts a channel into a slot; the slot must exist and every slot that must precede
    /// it must be filled.
    pub fn insert_channel(&mut self, slot: usize, channel: C) -> (r: Result<(), String>)
        requires
            old(self).wf(),
        ensures
            final(self).wf(),
            final(self).id == old(self).id,
            final(self).num_slots == old(self).num_slots,
            final(self).slot_dimensions@ == old(self).slot_dimensions@,
            final(self).causal_order.precedence@ == old(self).causal_order.precedence@,
            slot >= old(self).num_slots ==> (r matches Err(m) && m@ == slot_error_text(slot as nat)
                && final(self).channels@ == old(self).channels@ && final(self).causal_order.filled_slots@
                == old(self).causal_order.filled_slots@),
            slot < old(self).num_slots && !old(self).causal_order.spec_can_insert(slot) ==> (r matches Err(m) && m@
                == "Violates causal order"@ && final(self).channels@ == old(self).channels@
                && final(self).causal_order.filled_slots@ == old(self).causal_order.filled_slots@),
            slot < old(self).num_slots && old(self).causal_order.spec_can_insert(slot) ==> (r is Ok
                && final(self).channels@ == old(self).channels@.push(channel)
                && final(self).causal_order.filled_slots@ == old(self).causal_order.filled_slots@.update(
                slot as int,
                true,
            )),
    {
        if slot >= self.num_slots {
            let mut m = String::from_str("Slot ");
            let d = decimal_string(slot as u128);
            m.append(d.as_str());
            m.append(" out of bounds");
            return Err(m);
        }
        if !self.causal_order.can_insert(slot) {
            return Err(String::from_str("Violates causal order"));
        }
        self.channels.push(channel);
        self.causal_order.mark_filled(slot);
        Ok(())
    }

    /// Whether the comb's causal order has no cycle.
    pub fn is_valid(&self) -> (r: bool)
        requires
            self.wf(),
        ensures
            r == self.causal_order.is_acyclic(),
    {
        self.causal_order.is_consistent()
    }
}

impl<C: Clone> QuantumComb<C> {
    /// Links this comb with `other` into a comb of one slot fewer than both together: this
    /// comb's channels go into its first slots and `other`'s from slot `self.num_slots` on.
    /// Linking an empty comb is refused, and a channel that falls beyond the last slot fails
    /// the link with that slot's message.
    pub fn link_product(&self, other: &QuantumComb<C>) -> (r: Result<QuantumComb<C>, String>)
        requires
            self.num_slots + other.num_slots <= usize::MAX,
        ensures
            (self.num_slots == 0 || other.num_slots == 0) ==> (r matches Err(m) && m@ == "Empty combs cannot be linked"@),
            self.num_slots > 0 && other.num_slots > 0 ==> match r {
                Ok(l) => self.channels@.len() <= self.num_slots + other.num_slots - 1 && other.channels@.len()
                    < other.num_slots && linked_comb(*self, *other, l),
                Err(m) => (self.channels@.len() > self.num_slots + other.num_slots - 1 || other.channels@.len()
                    >= other.num_slots) && m@ == slot_error_text((self.num_slots + other.num_slots - 1) as nat),
            },
    {
        if self.num_slots == 0 || other.num_slots == 0 {
            return Err(String::from_str("Empty combs cannot be linked"));
        }
        let total = self.num_slots + other.num_slots - 1;
        let mut linked: QuantumComb<C> = QuantumComb::new(total);
        let n1 = self.channels.len();
        let mut i: usize = 0;
        while i < n1
            invariant
                i <= n1,
                n1 == self.channels@.len(),
                total == self.num_slots + other.num_slots - 1,
                self.num_slots > 0,
                other.num_slots > 0,
                linked.wf(),
                linked.num_slots == total,
                i <= total,
                linked.causal_order.precedence@.len() == 0,
                linked.slot_dimensions@ == Seq::new(total as nat, |k: int| 2usize),
                linked.channels@.len() == i,
                forall|k: int| 0 <= k < i ==> cloned::<C>(self.channels@[k], #[trigger] linked.channels@[k]),
                forall|s: int| 0 <= s < total ==> (#[trigger] linked.causal_order.filled_slots@[s] <==> s < i),
            decreases n1 - i,
        {
            let c = self.channels[i].clone();
            match linked.insert_channel(i, c) {
                Ok(()) => {},
                Err(e) => {
                    return Err(e);
                },
            }
            i = i + 1;
        }
        let n2 = other.channels.len();
        let mut j: usize = 0;
        while j < n2
            invariant
                j <= n2,
                n1 == self.channels@.len(),
                n2 == other.channels@.len(),
                n1 <= total,
                total == self.num_slots + other.num_slots - 1,
                self.num_slots > 0,
                other.num_slots > 0,
                self.num_slots + j <= total,
                linked.wf(),
                linked.num_slots == total,
                linked.causal_order.precedence@.len() == 0,
                linked.slot_dimensions@ == Seq::new(total as nat, |k: int| 2usize),
                linked.channels@.len() == n1 + j,
                forall|k: int| 0 <= k < n1 ==> cloned::<C>(self.channels@[k], #[trigger] linked.channels@[k]),
                forall|k: int| 0 <= k < j ==> cloned::<C>(other.channels@[k], #[trigger] linked.channels@[n1 + k]),
                forall|s: int|
                    0 <= s < total ==> (#[trigger] linked.causal_order.filled_slots@[s] <==> (s < n1 || (
                    self.num_slots <= s < self.num_slots + j))),
            decreases n2 - j,
        {
            let c = other.channels[j].clone();
            match linked.insert_channel(self.num_slots + j, c) {
                Ok(()) => {},
                Err(e) => {
                    return Err(e);
                },
            }
            j = j + 1;
        }
        Ok(linked)
    }
}

impl LinkProduct {
    /// The link product of two combs.
    pub fn apply<C: Clone>(comb1: &QuantumComb<C>, comb2: &QuantumComb<C>) -> (r: Result<QuantumComb<C>, String>)
        requires
            comb1.num_slots + comb2.num_slots <= usize::MAX,
        ensures
            (comb1.num_slots == 0 || comb2.num_slots == 0) ==> (r matches Err(m) && m@ == "Empty combs cannot be linked"@),
            comb1.num_slots > 0 && comb2.num_slots > 0 ==> match r {
                Ok(l) => comb1.channels@.len() <= comb1.num_slots + comb2.num_slots - 1 && comb2.channels@.len()
                    < comb2.num_slots && linked_comb(*comb1, *comb2, l),
                Err(m) => (comb1.channels@.len() > comb1.num_slots + comb2.num_slots - 1 || comb2.channels@.len()
                    >= comb2.num_slots) && m@ == slot_error_text((comb1.num_slots + comb2.num_slots - 1) as nat),
            },
    {
        comb1.link_product(comb2)
    }

    /// Two combs can be linked when the last slot of the first has the dimension of the
    /// first slot of the second.
    pub fn are_compatible<C>(comb1: &QuantumComb<C>, comb2: &QuantumComb<C>) -> (r: bool)
        ensures
            r == (comb1.slot_dimensions@.len() > 0 && comb2.slot_dimensions@.len() > 0
                && comb1.slot_dimensions@.last() == comb2.slot_dimensions@[0]),
    {
        if comb1.slot_dimensions.len() == 0 || comb2.slot_dimensions.len() == 0 {
            return false;
        }
        comb1.slot_dimensions[comb1.slot_dimensions.len() - 1] == comb2.slot_dimensions[0]
    }
}

/// The link product of quantum combs.
pub struct LinkProduct;

} // verus!
