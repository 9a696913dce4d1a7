//! The neighbor filter: peers excluded from outbound selection.

use vstd::prelude::*;

use crate::peer::PeerId;

verus! {

/// Identifiers that must not be chosen as outbound candidates. The host's
/// eligibility policy is applied by the caller and handed in as a flag.
pub struct NeighborFilter {
    excluded: Vec<PeerId>,
}

impl NeighborFilter {
    /// Whether `id` is excluded.
    pub closed spec fn excludes(&self, id: Seq<u8>) -> bool {
        exists|i: int| 0 <= i < self.excluded@.len() && (#[trigger] self.excluded@[i])@ == id
    }

    /// The excluded identifiers.
    pub open spec fn excluded_set(&self) -> Set<Seq<u8>> {
        Set::new(|id: Seq<u8>| self.excludes(id))
    }

    /// A filter that excludes nobody.
    pub fn new() -> (r: NeighborFilter)
        ensures
            forall|id: Seq<u8>| !r.excludes(id),
    {
        NeighborFilter { excluded: Vec::new() }
    }

    /// Whether `id` is excluded.
    pub fn contains(&self, id: &PeerId) -> (r: bool)
        ensures
            r == self.excludes(id@),
    {
        let mut i: usize = 0;
        while i < self.excluded.len()
            invariant
                0 <= i <= self.excluded@.len(),
                forall|j: int| 0 <= j < i ==> self.excluded@[j]@ != id@,
            decreases self.excluded@.len() - i,
        {
            if self.excluded[i].same_as(id) {
                return true;
            }
            i = i + 1;
        }
        false
    }

    /// Whether a peer may become a neighbor: the host's policy accepts it
    /// (`eligible`) and it is not excluded.
    pub fn is_valid_neighbor(&self, id: &PeerId, eligible: bool) -> (r: bool)
        ensures
            r == (eligible && !self.excludes(id@)),
    {
        eligible && !self.contains(id)
    }

    /// Excludes `id`.
    pub fn add(&mut self, id: PeerId)
        ensures
            forall|x: Seq<u8>| #[trigger] final(self).excludes(x) == (old(self).excludes(x) || x == id@),
    {
        if !self.contains(&id) {
            let ghost s = self.excluded@;
            self.excluded.push(id);
            assert forall|x: Seq<u8>| #[trigger] self.excludes(x) == (old(self).excludes(x) || x == id@) by {
                if self.excludes(x) {
                    let k = choose|k: int| 0 <= k < self.excluded@.len() && (#[trigger] self.excluded@[k])@ == x;
                    if k < s.len() {
                        assert(s[k] == self.excluded@[k]);
                    }
                }
                if old(self).excludes(x) {
                    let k = choose|k: int| 0 <= k < s.len() && (#[trigger] s[k])@ == x;
                    assert(s[k] == self.excluded@[k]);
                }
                if x == id@ {
                    assert(self.excluded@[s.len() as int] == id);
                }
            }
        }
    }

    /// Excludes nobody any more.
    pub fn clear(&mut self)
        ensures
            forall|x: Seq<u8>| !final(self).excludes(x),
    {
        self.excluded.clear();
    }
}

} // verus!
