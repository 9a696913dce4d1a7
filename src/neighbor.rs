//! Neighbors and bounded, distance-ordered neighborhoods.

use vstd::prelude::*;

use crate::distance::{distance_of, salt_distance};
use crate::local::Local;
use crate::peer::PeerId;

verus! {

/// Capacity of the inbound neighborhood.
pub const SIZE_INBOUND: usize = 4;

/// Capacity of the outbound neighborhood.
pub const SIZE_OUTBOUND: usize = 4;

/// Which way a neighborhood's peerings were formed: inbound neighbors are
/// ranked by the private salt, outbound ones by the public salt.
#[derive(Clone, Copy, Debug, PartialEq, Eq, Structural)]
pub enum Direction {
    Inbound,
    Outbound,
}

/// A peer together with its salted distance from the local peer.
#[derive(Clone, Copy, Debug, PartialEq, Eq)]
pub struct Neighbor {
    pub peer_id: PeerId,
    pub distance: u32,
}

impl Neighbor {
    pub fn new(peer_id: PeerId, distance: u32) -> (r: Neighbor)
        ensures
            r.peer_id == peer_id,
            r.distance == distance,
    {
        Neighbor { peer_id, distance }
    }
}

/// Whether some member of `s` has the identifier `id`.
pub open spec fn has_id(s: Seq<Neighbor>, id: Seq<u8>) -> bool {
    exists|i: int| 0 <= i < s.len() && (#[trigger] s[i]).peer_id@ == id
}

/// Members ascend by distance.
pub open spec fn sorted_by_distance(s: Seq<Neighbor>) -> bool {
    forall|i: int, j: int| 0 <= i < j < s.len() ==> s[i].distance <= s[j].distance
}

/// No identifier occurs twice.
pub open spec fn distinct_ids(s: Seq<Neighbor>) -> bool {
    forall|i: int, j: int| 0 <= i < j < s.len() ==> s[i].peer_id@ != s[j].peer_id@
}

/// `pos` is where a member at distance `d` goes: after every member at most
/// as far, before every member further away.
pub open spec fn is_insertion_point(s: Seq<Neighbor>, d: u32, pos: int) -> bool {
    &&& 0 <= pos <= s.len()
    &&& forall|i: int| 0 <= i < pos ==> s[i].distance <= d
    &&& forall|i: int| pos <= i < s.len() ==> s[i].distance > d
}

/// `r` is `s` with `n` placed at its insertion point.
pub open spec fn sorted_insert(s: Seq<Neighbor>, n: Neighbor, r: Seq<Neighbor>) -> bool {
    exists|pos: int| is_insertion_point(s, n.distance, pos) && r == s.insert(pos, n)
}

/// Whether a candidate at distance `d` would be taken into `s` of capacity `cap`:
/// there is room, or it is closer than the furthest member of a full neighborhood.
pub open spec fn preferred(s: Seq<Neighbor>, cap: nat, d: u32) -> bool {
    s.len() < cap || (s.len() == cap && s.len() > 0 && d < s.last().distance)
}

/// `s` without its furthest member when it is full.
pub open spec fn evict_if_full(s: Seq<Neighbor>, cap: nat) -> Seq<Neighbor> {
    if s.len() == cap && s.len() > 0 {
        s.drop_last()
    } else {
        s
    }
}

/// The members after an admission of `n` into `s`, or `s` unchanged when
/// `n` is refused.
pub open spec fn admitted(s: Seq<Neighbor>, cap: nat, n: Neighbor, r: Seq<Neighbor>) -> bool {
    if !has_id(s, n.peer_id@) && preferred(s, cap, n.distance) {
        sorted_insert(evict_if_full(s, cap), n, r)
    } else {
        r == s
    }
}

/// Whether `n` would be admitted into `s`.
pub open spec fn admits(s: Seq<Neighbor>, cap: nat, n: Neighbor) -> bool {
    !has_id(s, n.peer_id@) && preferred(s, cap, n.distance)
}

/// What a sorted insertion keeps and adds.
pub proof fn lemma_sorted_insert_members(s: Seq<Neighbor>, n: Neighbor, r: Seq<Neighbor>)
    requires
        sorted_insert(s, n, r),
    ensures
        r.len() == s.len() + 1,
        forall|id: Seq<u8>| has_id(r, id) <==> (has_id(s, id) || id == n.peer_id@),
        forall|k: int| 0 <= k < r.len() ==> r[k] == n || s.contains(r[k]),
{
    let pos = choose|pos: int| is_insertion_point(s, n.distance, pos) && r == s.insert(pos, n);
    assert forall|id: Seq<u8>| has_id(r, id) <==> (has_id(s, id) || id == n.peer_id@) by {
        if has_id(r, id) {
            let k = choose|k: int| 0 <= k < r.len() && (#[trigger] r[k]).peer_id@ == id;
            if k < pos {
                assert(r[k] == s[k]);
            } else if k > pos {
                assert(r[k] == s[k - 1]);
            }
        }
        if has_id(s, id) {
            let k = choose|k: int| 0 <= k < s.len() && (#[trigger] s[k]).peer_id@ == id;
            if k < pos {
                assert(r[k] == s[k]);
            } else {
                assert(r[k + 1] == s[k]);
            }
        }
        if id == n.peer_id@ {
            assert(r[pos] == n);
        }
    }
    assert forall|k: int| 0 <= k < r.len() implies r[k] == n || s.contains(r[k]) by {
        if k < pos {
            assert(r[k] == s[k]);
        } else if k > pos {
            assert(r[k] == s[k - 1]);
        }
    }
}

/// A fixed-capacity set of neighbors of one direction, sorted by distance.
pub struct Neighborhood {
    members: Vec<Neighbor>,
    capacity: usize,
    direction: Direction,
}

impl Neighborhood {
    /// The members, closest first.
    pub closed spec fn members(&self) -> Seq<Neighbor> {
        self.members@
    }

    pub closed spec fn cap(&self) -> nat {
        self.capacity as nat
    }

    pub closed spec fn direction_inbound(&self) -> bool {
        self.direction == Direction::Inbound
    }

    /// At most `capacity` members, ascending by distance, no identifier twice.
    pub open spec fn wf(&self) -> bool {
        &&& self.members().len() <= self.cap()
        &&& sorted_by_distance(self.members())
        &&& distinct_ids(self.members())
    }

    /// The identifiers of the members as values, closest first.
    pub open spec fn peer_ids(&self) -> Seq<PeerId> {
        self.members().map_values(|n: Neighbor| n.peer_id)
    }

    pub open spec fn contains_id(&self, id: Seq<u8>) -> bool {
        has_id(self.members(), id)
    }

    /// An empty neighborhood of the given capacity and direction.
    pub fn new(capacity: usize, direction: Direction) -> (r: Neighborhood)
        ensures
            r.wf(),
            r.members() == Seq::<Neighbor>::empty(),
            r.cap() == capacity,
            r.direction_inbound() == (direction == Direction::Inbound),
    {
        Neighborhood { members: Vec::new(), capacity, direction }
    }

    pub fn len(&self) -> (r: usize)
        ensures
            r == self.members().len(),
    {
        self.members.len()
    }

    pub fn capacity(&self) -> (r: usize)
        ensures
            r == self.cap(),
    {
        self.capacity
    }

    pub fn is_inbound(&self) -> (r: bool)
        ensures
            r == self.direction_inbound(),
    {
        self.direction == Direction::Inbound
    }

    pub fn is_full(&self) -> (r: bool)
        ensures
            r == (self.members().len() == self.cap()),
    {
        self.members.len() == self.capacity
    }

    /// The member at position `i`, closest first.
    pub fn get(&self, i: usize) -> (r: Neighbor)
        requires
            i < self.members().len(),
        ensures
            r == self.members()[i as int],
    {
        self.members[i]
    }

    /// Position of the member with identifier `id`.
    fn index_of(&self, id: &PeerId) -> (r: Option<usize>)
        requires
            self.wf(),
        ensures
            match r {
                Some(i) => i < self.members().len() && self.members()[i as int].peer_id@ == id@,
                None => !self.contains_id(id@),
            },
    {
        let mut i: usize = 0;
        while i < self.members.len()
            invariant
                0 <= i <= self.members@.len(),
                forall|j: int| 0 <= j < i ==> self.members@[j].peer_id@ != id@,
            decreases self.members@.len() - i,
        {
            if self.members[i].peer_id.same_as(id) {
                return Some(i);
            }
            i = i + 1;
        }
        None
    }

    /// Whether a member has the identifier `id`.
    pub fn contains(&self, id: &PeerId) -> (r: bool)
        requires
            self.wf(),
        ensures
            r == self.contains_id(id@),
    {
        self.index_of(id).is_some()
    }

    /// Whether a candidate at `distance` would be admitted on distance alone.
    pub fn is_preferred(&self, distance: u32) -> (r: bool)
        requires
            self.wf(),
        ensures
            r == preferred(self.members(), self.cap(), distance),
    {
        let len = self.members.len();
        if len < self.capacity {
            true
        } else if len == self.capacity && len > 0 {
            distance < self.members[len - 1].distance
        } else {
            false
        }
    }

    /// Places `n` at its insertion point.
    fn insert_sorted(&mut self, n: Neighbor)
        requires
            old(self).wf(),
            old(self).members().len() < old(self).cap(),
            !old(self).contains_id(n.peer_id@),
        ensures
            final(self).wf(),
            final(self).cap() == old(self).cap(),
            final(self).direction_inbound() == old(self).direction_inbound(),
            sorted_insert(old(self).members(), n, final(self).members()),
    {
        let mut pos: usize = 0;
        while pos < self.members.len() && self.members[pos].distance <= n.distance
            invariant
                0 <= pos <= self.members@.len(),
                forall|i: int| 0 <= i < pos ==> self.members@[i].distance <= n.distance,
            decreases self.members@.len() - pos,
        {
            pos = pos + 1;
        }
        let ghost s = self.members@;
        assert(is_insertion_point(s, n.distance, pos as int));
        self.members.insert(pos, n);
        assert(self.members@ == s.insert(pos as int, n));
        assert forall|i: int, j: int| 0 <= i < j < self.members@.len() implies
            self.members@[i].peer_id@ != self.members@[j].peer_id@ by {
            if i < pos && j > pos {
                assert(self.members@[j] == s[j - 1]);
            } else if i == pos {
                assert(self.members@[j] == s[j - 1]);
                assert(has_id(s, s[j - 1].peer_id@));
            } else if j == pos {
                assert(self.members@[i] == s[i]);
                assert(has_id(s, s[i].peer_id@));
            }
        }
    }

    /// Removes and returns the furthest member when the neighborhood is full.
    pub fn remove_furthest_if_full(&mut self) -> (r: Option<PeerId>)
        requires
            old(self).wf(),
        ensures
            final(self).wf(),
            final(self).cap() == old(self).cap(),
            final(self).direction_inbound() == old(self).direction_inbound(),
            final(self).members() == evict_if_full(old(self).members(), old(self).cap()),
            r == (if old(self).members().len() == old(self).cap() && old(self).members().len() > 0 {
                Some(old(self).members().last().peer_id)
            } else {
                None::<PeerId>
            }),
    {
        let len = self.members.len();
        if len == self.capacity && len > 0 {
            let n = self.members.pop().unwrap();
            Some(n.peer_id)
        } else {
            None
        }
    }

    /// Admits `n` unless its identifier is present or it is not preferred;
    /// a full neighborhood first loses its furthest member.
    pub fn insert(&mut self, n: Neighbor) -> (r: bool)
        requires
            old(self).wf(),
        ensures
            final(self).wf(),
            final(self).cap() == old(self).cap(),
            final(self).direction_inbound() == old(self).direction_inbound(),
            r == admits(old(self).members(), old(self).cap(), n),
            admitted(old(self).members(), old(self).cap(), n, final(self).members()),
            !r ==> *final(self) == *old(self),
    {
        if self.contains(&n.peer_id) || !self.is_preferred(n.distance) {
            return false;
        }
        let _ = self.remove_furthest_if_full();
        proof {
            let s = old(self).members();
            if s.len() == old(self).cap() && s.len() > 0 {
                assert forall|i: int| 0 <= i < s.len() - 1 implies
                    s[i].peer_id@ != n.peer_id@ by {
                    assert(has_id(s, s[i].peer_id@));
                }
                if self.contains_id(n.peer_id@) {
                    let k = choose|k: int| 0 <= k < self.members().len()
                        && (#[trigger] self.members()[k]).peer_id@ == n.peer_id@;
                    assert(self.members()[k] == s[k]);
                }
            }
        }
        self.insert_sorted(n);
        true
    }

    /// Computes the distance of `peer_id` under this direction's salt and
    /// admits it as `insert` does.
    pub fn insert_neighbor(&mut self, peer_id: PeerId, local: &Local) -> (r: bool)
        requires
            old(self).wf(),
        ensures
            final(self).wf(),
            final(self).cap() == old(self).cap(),
            final(self).direction_inbound() == old(self).direction_inbound(),
            ({
                let n = Neighbor {
                    peer_id,
                    distance: distance_of(
                        local.peer_id@,
                        peer_id@,
                        local.salt_for_spec(old(self).direction_inbound()).bytes@,
                    ),
                };
                &&& r == admits(old(self).members(), old(self).cap(), n)
                &&& admitted(old(self).members(), old(self).cap(), n, final(self).members())
            }),
            !r ==> *final(self) == *old(self),
    {
        let salt = local.salt_for(self.is_inbound());
        let distance = salt_distance(&local.peer_id, &peer_id, &salt);
        self.insert(Neighbor { peer_id, distance })
    }

    /// Removes and returns the member with identifier `id`.
    pub fn remove_neighbor(&mut self, id: &PeerId) -> (r: Option<Neighbor>)
        requires
            old(self).wf(),
        ensures
            final(self).wf(),
            final(self).cap() == old(self).cap(),
            final(self).direction_inbound() == old(self).direction_inbound(),
            !final(self).contains_id(id@),
            match r {
                Some(n) => exists|i: int| 0 <= i < old(self).members().len()
                    && old(self).members()[i] == n
                    && n.peer_id@ == id@
                    && final(self).members() == old(self).members().remove(i),
                None => !old(self).contains_id(id@) && *final(self) == *old(self),
            },
    {
        match self.index_of(id) {
            Some(i) => {
                let ghost s = self.members@;
                let n = self.members.remove(i);
                proof {
                    assert(self.members@ == s.remove(i as int));
                    if self.contains_id(id@) {
                        let k = choose|k: int| 0 <= k < self.members().len()
                            && (#[trigger] self.members()[k]).peer_id@ == id@;
                        if k < i {
                            assert(self.members()[k] == s[k]);
                        } else {
                            assert(self.members()[k] == s[k + 1]);
                        }
                    }
                    assert forall|a: int, b: int| 0 <= a < b < self.members@.len() implies
                        self.members@[a].distance <= self.members@[b].distance
                        && self.members@[a].peer_id@ != self.members@[b].peer_id@ by {
                        let a2 = if a < i { a } else { a + 1 };
                        let b2 = if b < i { b } else { b + 1 };
                        assert(self.members@[a] == s[a2]);
                        assert(self.members@[b] == s[b2]);
                    }
                }
                Some(n)
            },
            None => None,
        }
    }

    /// Recomputes every member's distance under the current salt of this
    /// direction and re-sorts; nobody is evicted.
    pub fn update_distances(&mut self, local: &Local)
        requires
            old(self).wf(),
        ensures
            final(self).wf(),
            final(self).cap() == old(self).cap(),
            final(self).direction_inbound() == old(self).direction_inbound(),
            final(self).members().len() == old(self).members().len(),
            forall|id: Seq<u8>| final(self).contains_id(id) <==> old(self).contains_id(id),
            forall|k: int| 0 <= k < final(self).members().len() ==>
                (#[trigger] final(self).members()[k]).distance == distance_of(
                    local.peer_id@,
                    final(self).members()[k].peer_id@,
                    local.salt_for_spec(old(self).direction_inbound()).bytes@,
                ),
    {
        let salt = local.salt_for(self.is_inbound());
        let ghost salt_bytes = salt.bytes@;
        let ghost s = self.members@;
        let mut fresh = Neighborhood { members: Vec::new(), capacity: self.capacity, direction: self.direction };
        let mut i: usize = 0;
        while i < self.members.len()
            invariant
                self.members@ == s,
                self.wf(),
                0 <= i <= s.len(),
                fresh.wf(),
                fresh.cap() == self.cap(),
                fresh.direction_inbound() == self.direction_inbound(),
                salt == local.salt_for_spec(self.direction_inbound()),
                salt_bytes == salt.bytes@,
                fresh.members().len() == i,
                forall|id: Seq<u8>| fresh.contains_id(id) <==> has_id(s.subrange(0, i as int), id),
                forall|k: int| 0 <= k < fresh.members().len() ==>
                    (#[trigger] fresh.members()[k]).distance == distance_of(
                        local.peer_id@,
                        fresh.members()[k].peer_id@,
                        salt_bytes,
                    ),
            decreases s.len() - i,
        {
            let id = self.members[i].peer_id;
            let distance = salt_distance(&local.peer_id, &id, &salt);
            let n = Neighbor { peer_id: id, distance };
            proof {
                if has_id(s.subrange(0, i as int), id@) {
                    let k = choose|k: int| 0 <= k < i && (#[trigger] s.subrange(0, i as int)[k]).peer_id@ == id@;
                    assert(s.subrange(0, i as int)[k] == s[k]);
                }
            }
            let ghost before = fresh.members();
            assert forall|x: Seq<u8>| has_id(before, x) <==> has_id(s.subrange(0, i as int), x) by {
                assert(fresh.contains_id(x) == has_id(before, x));
            }
            fresh.insert_sorted(n);
            proof {
                lemma_sorted_insert_members(before, n, fresh.members());
                let t = s.subrange(0, i as int + 1);
                assert forall|x: Seq<u8>| has_id(t, x) <==> (has_id(s.subrange(0, i as int), x) || x == id@) by {
                    if has_id(t, x) {
                        let k = choose|k: int| 0 <= k < t.len() && (#[trigger] t[k]).peer_id@ == x;
                        if k < i {
                            assert(s.subrange(0, i as int)[k] == t[k]);
                        }
                    }
                    if has_id(s.subrange(0, i as int), x) {
                        let k = choose|k: int| 0 <= k < i && (#[trigger] s.subrange(0, i as int)[k]).peer_id@ == x;
                        assert(s.subrange(0, i as int)[k] == t[k]);
                    }
                    if x == id@ {
                        assert(t[i as int] == s[i as int]);
                    }
                }
                assert forall|x: Seq<u8>| fresh.contains_id(x) <==> has_id(t, x) by {
                    assert(has_id(fresh.members(), x) <==> (has_id(before, x) || x == n.peer_id@));
                }
                assert forall|k: int| 0 <= k < fresh.members().len() implies
                    (#[trigger] fresh.members()[k]).distance == distance_of(
                        local.peer_id@,
                        fresh.members()[k].peer_id@,
                        salt_bytes,
                    ) by {
                    if fresh.members()[k] != n {
                        let m = fresh.members()[k];
                        assert(before.contains(m));
                        let j = choose|j: int| 0 <= j < before.len() && before[j] == m;
                        assert(before[j].distance == distance_of(local.peer_id@, before[j].peer_id@, salt_bytes));
                    }
                }
            }
            i = i + 1;
        }
        assert(s.subrange(0, s.len() as int) =~= s);
        self.members = fresh.members;
    }

    /// Removes every member.
    pub fn clear(&mut self)
        requires
            old(self).wf(),
        ensures
            final(self).wf(),
            final(self).cap() == old(self).cap(),
            final(self).direction_inbound() == old(self).direction_inbound(),
            final(self).members() == Seq::<Neighbor>::empty(),
    {
        self.members.clear();
    }

    /// The identifiers of the members, closest first.
    pub fn peers(&self) -> (r: Vec<PeerId>)
        ensures
            r@ == self.peer_ids(),
    {
        let mut r: Vec<PeerId> = Vec::new();
        let mut i: usize = 0;
        while i < self.members.len()
            invariant
                0 <= i <= self.members@.len(),
                r@.len() == i,
                forall|j: int| 0 <= j < i ==> r@[j] == self.members@[j].peer_id,
            decreases self.members@.len() - i,
        {
            r.push(self.members[i].peer_id);
            i = i + 1;
        }
        assert(r@ =~= self.peer_ids());
        r
    }
}

} // verus!
