//! The order in which the agents of a tick take their turns.

use vstd::prelude::*;
use crate::agent::Agent;
use crate::world::{AgentId, World};

verus! {

/// Whether `a` takes its turn before `b`: the agent with less energy goes
/// first, and of two with equal energy the one with the lower identifier.
pub open spec fn acts_before(a: Agent, b: Agent) -> bool {
    a.energy < b.energy || (a.energy == b.energy && a.id < b.id)
}

impl World {
    /// Whether `order` lists every live agent's identifier, and nothing
    /// else, in the order of the turns.
    pub open spec fn is_turn_order(&self, order: Seq<AgentId>) -> bool {
        &&& order.len() == self.agents@.len()
        &&& forall|k: int| 0 <= k < order.len() ==> self.has_agent(#[trigger] order[k])
        &&& forall|i: int|
            0 <= i < self.agents@.len() ==> order.contains((#[trigger] self.agents@[i]).id)
        &&& forall|j: int, k: int|
            0 <= j < k < order.len() ==> acts_before(
                self.agents@[self.index_of(#[trigger] order[j])],
                self.agents@[self.index_of(#[trigger] order[k])],
            )
    }

    /// The identifiers of all live agents in the order of their turns.
    pub fn turn_order(&self) -> (order: Vec<AgentId>)
        requires
            self.wf(),
        ensures
            self.is_turn_order(order@),
            order@.len() == self.agents@.len(),
            forall|k: int| 0 <= k < order@.len() ==> self.has_agent(#[trigger] order@[k]),
            forall|i: int|
                0 <= i < self.agents@.len() ==> order@.contains((#[trigger] self.agents@[i]).id),
            forall|j: int, k: int|
                0 <= j < k < order@.len() ==> acts_before(
                    self.agents@[self.index_of(#[trigger] order@[j])],
                    self.agents@[self.index_of(#[trigger] order@[k])],
                ),
    {
        let n: usize = self.agents.len();
        let mut places: Vec<usize> = Vec::new();
        let mut i: usize = 0;
        while i < n
            invariant
                0 <= i <= n,
                n == self.agents@.len(),
                self.wf(),
                places@.len() == i,
                forall|k: int| 0 <= k < i ==> (#[trigger] places@[k]) < i,
                forall|m: int| 0 <= m < i ==> #[trigger] places@.contains(m as usize),
                forall|j: int, k: int|
                    0 <= j < k < i ==> acts_before(
                        self.agents@[(#[trigger] places@[j]) as int],
                        self.agents@[(#[trigger] places@[k]) as int],
                    ),
            decreases n - i,
        {
            let energy: u32 = self.agents[i].energy;
            let mut p: usize = 0;
            while p < places.len() && self.agents[places[p]].energy <= energy
                invariant
                    0 <= p <= places@.len(),
                    places@.len() == i,
                    i < n,
                    n == self.agents@.len(),
                    forall|k: int| 0 <= k < i ==> (#[trigger] places@[k]) < i,
                    forall|k: int|
                        0 <= k < p ==> self.agents@[(#[trigger] places@[k]) as int].energy
                            <= energy,
                decreases places@.len() - p,
            {
                p += 1;
            }
            let ghost sorted = places@;
            places.insert(p, i);
            proof {
                assert forall|j: int, k: int| 0 <= j < k < i + 1 implies acts_before(
                    self.agents@[(#[trigger] places@[j]) as int],
                    self.agents@[(#[trigger] places@[k]) as int],
                ) by {
                    let sj = if j < p { j } else { j - 1 };
                    let sk = if k < p { k } else { k - 1 };
                    if j != p && k != p {
                        assert(places@[j] == sorted[sj]);
                        assert(places@[k] == sorted[sk]);
                        assert(acts_before(
                            self.agents@[sorted[sj] as int],
                            self.agents@[sorted[sk] as int],
                        ));
                    } else if j == p {
                        assert(places@[k] == sorted[sk]);
                        if p < sk {
                            assert(acts_before(
                                self.agents@[sorted[p as int] as int],
                                self.agents@[sorted[sk] as int],
                            ));
                        }
                    } else {
                        assert(places@[j] == sorted[sj]);
                        assert(sorted[sj] < i);
                        assert(self.agents@[sorted[sj] as int].id < self.agents@[i as int].id);
                    }
                }
                assert forall|m: int| 0 <= m < i + 1 implies #[trigger] places@.contains(
                    m as usize,
                ) by {
                    if m < i {
                        assert(sorted.contains(m as usize));
                        let k = choose|k: int| 0 <= k < sorted.len() && sorted[k] == m as usize;
                        let at = if k < p { k } else { k + 1 };
                        assert(places@[at] == m as usize);
                    } else {
                        assert(places@[p as int] == i);
                    }
                }
                assert forall|k: int| 0 <= k < i + 1 implies (#[trigger] places@[k]) < i + 1 by {
                    let sk = if k < p { k } else { k - 1 };
                    if k != p {
                        assert(places@[k] == sorted[sk]);
                    }
                }
            }
            i += 1;
        }
        let mut order: Vec<AgentId> = Vec::new();
        let mut k: usize = 0;
        while k < n
            invariant
                0 <= k <= n,
                n == self.agents@.len(),
                places@.len() == n,
                order@.len() == k,
                forall|j: int| 0 <= j < n ==> (#[trigger] places@[j]) < n,
                forall|m: int| 0 <= m < n ==> #[trigger] places@.contains(m as usize),
                forall|j: int|
                    0 <= j < k ==> #[trigger] order@[j] == self.agents@[places@[j] as int].id,
            decreases n - k,
        {
            order.push(self.agents[places[k]].id);
            k += 1;
        }
        proof {
            assert forall|i: int| 0 <= i < self.agents@.len() implies order@.contains(
                (#[trigger] self.agents@[i]).id,
            ) by {
                assert(places@.contains(i as usize));
                let k = choose|k: int| 0 <= k < places@.len() && places@[k] == i as usize;
                assert(order@[k] == self.agents@[i].id);
            }
            assert forall|j: int| 0 <= j < order@.len() implies self.has_agent(
                #[trigger] order@[j],
            ) by {
                self.lemma_index_of(places@[j] as int);
            }
            assert forall|j: int, k: int| 0 <= j < k < order@.len() implies acts_before(
                self.agents@[self.index_of(#[trigger] order@[j])],
                self.agents@[self.index_of(#[trigger] order@[k])],
            ) by {
                self.lemma_index_of(places@[j] as int);
                self.lemma_index_of(places@[k] as int);
                assert(acts_before(
                    self.agents@[places@[j] as int],
                    self.agents@[places@[k] as int],
                ));
            }
        }
        order
    }
}

} // verus!
