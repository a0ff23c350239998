//! The world: grid, food mask, agent registry, generator and step counter.

use vstd::prelude::*;
use rand::rngs::StdRng;
use crate::agent::{Action, Agent, Color};
use crate::brain::Brain;
use crate::dice::seeded;

verus! {

pub type AgentId = usize;

pub const WIDTH: usize = 50;

pub const HEIGHT: usize = 50;

/// No food grows while at least this many cells hold food.
pub const MAX_FOODS: usize = 2500;

/// Body size of a genesis agent.
pub const MAX_ENERGY: u32 = 100;

/// Energy of a genesis agent.
pub const INIT_ENERGY: u32 = 50;

/// Energy an agent pays when it tries to reproduce.
pub const REPRODUCE_COST: u32 = 70;

/// Energy a child is born with: what its parent pays for the birth, so
/// that a birth neither makes nor loses energy.
pub const CHILD_INIT_ENERGY: u32 = REPRODUCE_COST;

/// Growth attempts per tick in summer.
pub const FOOD_SPAWN_COUNT_SUMMER: usize = 250;

/// Growth attempts per tick in winter.
pub const FOOD_SPAWN_COUNT_WINTER: usize = 100;

/// Ticks in one season; a year is a summer, then a winter.
pub const SEASON_LENGTH: u64 = 2000;

/// Energy gained by eating.
pub const FOOD_ENERGY: u32 = 60;

/// Energy paid on every turn.
pub const METABOLIC_COST: u32 = 1;

/// Extra energy paid for a move, whether or not it succeeds.
pub const MOVE_COST: u32 = 1;

/// Energy paid for an attack or a heal.
pub const INTERACT_COST: u32 = 10;

/// Energy change an attack inflicts on each neighbour.
pub const ATTACK_AMOUNT: i32 = -20;

/// Energy a heal grants each neighbour.
pub const HEAL_AMOUNT: u32 = 8;

/// Lifespans are drawn from `LIFESPAN_START..LIFESPAN_END`.
pub const LIFESPAN_START: u32 = 500;

pub const LIFESPAN_END: u32 = 700;

#[derive(Debug, Clone, Copy, PartialEq, Eq, Structural)]
pub struct Position {
    pub x: usize,
    pub y: usize,
}

impl Position {
    pub open spec fn in_bounds(&self) -> bool {
        self.x < WIDTH && self.y < HEIGHT
    }
}

/// Whether integer coordinates name a cell of the grid.
pub open spec fn on_grid(x: int, y: int) -> bool {
    0 <= x < WIDTH && 0 <= y < HEIGHT
}

/// Whether two distinct cells touch, diagonals included.
pub open spec fn adjacent(ax: int, ay: int, bx: int, by: int) -> bool {
    &&& -1 <= ax - bx <= 1
    &&& -1 <= ay - by <= 1
    &&& !(ax == bx && ay == by)
}

/// Whether some agent of the sequence carries the identifier.
pub open spec fn known_in(agents: Seq<Agent>, id: AgentId) -> bool {
    exists|i: int| 0 <= i < agents.len() && (#[trigger] agents[i]).id == id
}

/// The place of the agent that carries the identifier.
pub open spec fn index_in(agents: Seq<Agent>, id: AgentId) -> int {
    choose|i: int| 0 <= i < agents.len() && (#[trigger] agents[i]).id == id
}

/// The occupant of a cell of a grid given as its rows.
#[verifier::inline]
pub open spec fn cell_of(grid: Seq<Vec<Option<AgentId>>>, x: int, y: int) -> Option<AgentId> {
    grid[y]@[x]
}

#[derive(Debug, Clone)]
pub struct World {
    pub step: u64,
    /// The live agents, in ascending order of identifier.
    pub agents: Vec<Agent>,
    /// `grid[y][x]` holds the identifier of the agent on that cell.
    pub grid: Vec<Vec<Option<AgentId>>>,
    /// `foods[y][x]` tells whether the cell holds food.
    pub foods: Vec<Vec<bool>>,
    pub rng: StdRng,
    /// The identifier the next agent gets; identifiers are never reused.
    pub next_id: usize,
}

impl World {
    /// The occupant of a cell.
    #[verifier::inline]
    pub open spec fn cell(&self, x: int, y: int) -> Option<AgentId> {
        self.grid@[y]@[x]
    }

    /// Whether a cell holds food.
    #[verifier::inline]
    pub open spec fn food(&self, x: int, y: int) -> bool {
        self.foods@[y]@[x]
    }

    /// Whether an agent with this identifier is alive.
    #[verifier::inline]
    pub open spec fn has_agent(&self, id: AgentId) -> bool {
        known_in(self.agents@, id)
    }

    /// The place of a live agent in the registry.
    #[verifier::inline]
    pub open spec fn index_of(&self, id: AgentId) -> int {
        index_in(self.agents@, id)
    }

    /// Grid and food mask have the fixed dimensions.
    pub open spec fn shaped(&self) -> bool {
        &&& self.grid@.len() == HEIGHT
        &&& forall|y: int| 0 <= y < HEIGHT ==> (#[trigger] self.grid@[y])@.len() == WIDTH
        &&& self.foods@.len() == HEIGHT
        &&& forall|y: int| 0 <= y < HEIGHT ==> (#[trigger] self.foods@[y])@.len() == WIDTH
    }

    /// Every agent is well formed and carries an identifier already handed out.
    pub open spec fn agents_sound(&self) -> bool {
        forall|i: int|
            0 <= i < self.agents@.len() ==> (#[trigger] self.agents@[i]).wf() && self.agents@[i].id
                < self.next_id
    }

    /// Identifiers ascend along the registry, so none occurs twice.
    pub open spec fn ids_ascending(&self) -> bool {
        forall|i: int, j: int|
            0 <= i < j < self.agents@.len() ==> (#[trigger] self.agents@[i]).id < (
            #[trigger] self.agents@[j]).id
    }

    /// The cell under every agent stores that agent's identifier.
    pub open spec fn agents_seated(&self) -> bool {
        forall|i: int|
            0 <= i < self.agents@.len() ==> self.cell(
                (#[trigger] self.agents@[i]).pos.x as int,
                self.agents@[i].pos.y as int,
            ) == Some(self.agents@[i].id)
    }

    /// Every identifier stored in a cell is that of a live agent standing there.
    pub open spec fn cells_owned(&self) -> bool {
        forall|x: int, y: int|
            on_grid(x, y) && (#[trigger] self.cell(x, y)).is_some() ==> self.stands_at(
                self.cell(x, y).unwrap(),
                x,
                y,
            )
    }

    /// A live agent with this identifier stands on this cell.
    pub open spec fn stands_at(&self, id: AgentId, x: int, y: int) -> bool {
        exists|i: int|
            0 <= i < self.agents@.len() && (#[trigger] self.agents@[i]).id == id
                && self.agents@[i].pos.x == x && self.agents@[i].pos.y == y
    }

    /// The world's invariant: fixed dimensions, sound agents, unique
    /// identifiers, and a grid that agrees with the agents' positions in
    /// both directions.
    pub open spec fn wf(&self) -> bool {
        &&& self.shaped()
        &&& self.agents_sound()
        &&& self.ids_ascending()
        &&& self.agents_seated()
        &&& self.cells_owned()
    }

    /// In a well-formed world an agent's identifier leads back to its place.
    pub proof fn lemma_index_of(&self, i: int)
        requires
            self.ids_ascending(),
            0 <= i < self.agents@.len(),
        ensures
            self.has_agent(self.agents@[i].id),
            self.index_of(self.agents@[i].id) == i,
    {
        let id = self.agents@[i].id;
        let j = self.index_of(id);
        assert(0 <= j < self.agents@.len() && self.agents@[j].id == id);
        if j < i {
            assert(self.agents@[j].id < self.agents@[i].id);
        }
        if i < j {
            assert(self.agents@[i].id < self.agents@[j].id);
        }
    }

    /// An empty world at step zero, its generator fixed by the seed.
    pub fn new(seed: u64) -> (world: Self)
        ensures
            world.wf(),
            world.step == 0,
            world.agents@.len() == 0,
            world.next_id == 0,
            forall|x: int, y: int| on_grid(x, y) ==> world.cell(x, y).is_none(),
            forall|x: int, y: int| on_grid(x, y) ==> !world.food(x, y),
    {
        let mut grid: Vec<Vec<Option<AgentId>>> = Vec::new();
        let mut foods: Vec<Vec<bool>> = Vec::new();
        let mut y: usize = 0;
        while y < HEIGHT
            invariant
                0 <= y <= HEIGHT,
                grid@.len() == y,
                foods@.len() == y,
                forall|j: int| 0 <= j < y ==> (#[trigger] grid@[j])@.len() == WIDTH,
                forall|j: int| 0 <= j < y ==> (#[trigger] foods@[j])@.len() == WIDTH,
                forall|j: int, i: int|
                    0 <= j < y && 0 <= i < WIDTH ==> (#[trigger] grid@[j]@[i]).is_none(),
                forall|j: int, i: int| 0 <= j < y && 0 <= i < WIDTH ==> !(#[trigger] foods@[j]@[i]),
            decreases HEIGHT - y,
        {
            let mut row: Vec<Option<AgentId>> = Vec::new();
            let mut food_row: Vec<bool> = Vec::new();
            let mut x: usize = 0;
            while x < WIDTH
                invariant
                    0 <= x <= WIDTH,
                    row@.len() == x,
                    food_row@.len() == x,
                    forall|i: int| 0 <= i < x ==> (#[trigger] row@[i]).is_none(),
                    forall|i: int| 0 <= i < x ==> !(#[trigger] food_row@[i]),
                decreases WIDTH - x,
            {
                row.push(None);
                food_row.push(false);
                x += 1;
            }
            grid.push(row);
            foods.push(food_row);
            y += 1;
        }
        Self { step: 0, agents: Vec::new(), grid, foods, rng: seeded(seed), next_id: 0 }
    }

    /// Whether `self` differs from `other` at most in its agents and generator.
    pub open spec fn same_terrain(&self, other: &World) -> bool {
        &&& self.step == other.step
        &&& self.grid == other.grid
        &&& self.foods == other.foods
        &&& self.next_id == other.next_id
    }

    /// Whether `self` differs from `other` at most in its agents: the
    /// terrain is the same and no draw was taken from the generator.
    pub open spec fn same_ground(&self, other: &World) -> bool {
        &&& self.same_terrain(other)
        &&& self.rng == other.rng
    }

    /// Whether the agents of `self` are those of `other` in identifier and
    /// position, one for one.
    pub open spec fn same_seats(&self, other: &World) -> bool {
        &&& self.agents@.len() == other.agents@.len()
        &&& forall|i: int|
            0 <= i < self.agents@.len() ==> (#[trigger] self.agents@[i]).id == other.agents@[i].id
                && self.agents@[i].pos == other.agents@[i].pos
    }

    /// A change that touches neither the grid nor any agent's identifier or
    /// position keeps the invariant, provided the agents stay sound.
    pub proof fn lemma_seats_kept(&self, before: &World)
        requires
            before.wf(),
            self.grid == before.grid,
            self.foods == before.foods,
            self.same_seats(before),
            self.agents_sound(),
        ensures
            self.wf(),
    {
        assert(self.ids_ascending()) by {
            assert forall|i: int, j: int| 0 <= i < j < self.agents@.len() implies (
            #[trigger] self.agents@[i]).id < (#[trigger] self.agents@[j]).id by {
                assert(before.agents@[i].id < before.agents@[j].id);
            }
        }
        assert(self.agents_seated()) by {
            assert forall|i: int| 0 <= i < self.agents@.len() implies self.cell(
                (#[trigger] self.agents@[i]).pos.x as int,
                self.agents@[i].pos.y as int,
            ) == Some(self.agents@[i].id) by {
                assert(before.agents@[i].wf());
            }
        }
        assert(self.cells_owned()) by {
            assert forall|x: int, y: int|
                on_grid(x, y) && (#[trigger] self.cell(x, y)).is_some() implies self.stands_at(
                self.cell(x, y).unwrap(),
                x,
                y,
            ) by {
                let id = before.cell(x, y).unwrap();
                assert(before.stands_at(id, x, y));
                let i = choose|i: int|
                    0 <= i < before.agents@.len() && (#[trigger] before.agents@[i]).id == id
                        && before.agents@[i].pos.x == x && before.agents@[i].pos.y == y;
                assert(self.agents@[i].id == id);
            }
        }
    }

    /// In a well-formed world the agent named by a cell is found at its place.
    pub proof fn lemma_occupant(&self, x: int, y: int)
        requires
            self.wf(),
            on_grid(x, y),
            self.cell(x, y).is_some(),
        ensures
            self.has_agent(self.cell(x, y).unwrap()),
            self.agents@[self.index_of(self.cell(x, y).unwrap())].pos.x == x,
            self.agents@[self.index_of(self.cell(x, y).unwrap())].pos.y == y,
    {
        let id = self.cell(x, y).unwrap();
        assert(self.stands_at(id, x, y));
        let i = choose|i: int|
            0 <= i < self.agents@.len() && (#[trigger] self.agents@[i]).id == id
                && self.agents@[i].pos.x == x && self.agents@[i].pos.y == y;
        self.lemma_index_of(i);
    }

    /// In a well-formed world two agents on one cell are one agent.
    pub proof fn lemma_one_per_cell(&self, i: int, j: int)
        requires
            self.wf(),
            0 <= i < self.agents@.len(),
            0 <= j < self.agents@.len(),
            self.agents@[i].pos == self.agents@[j].pos,
        ensures
            i == j,
    {
        assert(self.agents@[i].wf());
        assert(self.agents@[j].wf());
        if i < j {
            assert(self.agents@[i].id < self.agents@[j].id);
        }
        if j < i {
            assert(self.agents@[j].id < self.agents@[i].id);
        }
    }

    pub(crate) fn set_cell(&mut self, x: usize, y: usize, occupant: Option<AgentId>)
        requires
            old(self).shaped(),
            x < WIDTH,
            y < HEIGHT,
        ensures
            final(self).shaped(),
            final(self).cell(x as int, y as int) == occupant,
            forall|cx: int, cy: int|
                on_grid(cx, cy) && !(cx == x && cy == y) ==> #[trigger] final(self).cell(cx, cy)
                    == old(self).cell(cx, cy),
            final(self).agents == old(self).agents,
            final(self).foods == old(self).foods,
            final(self).step == old(self).step,
            final(self).next_id == old(self).next_id,
            final(self).rng == old(self).rng,
    {
        self.grid[y][x] = occupant;
    }

    pub(crate) fn set_food(&mut self, x: usize, y: usize, present: bool)
        requires
            old(self).shaped(),
            x < WIDTH,
            y < HEIGHT,
        ensures
            final(self).shaped(),
            final(self).food(x as int, y as int) == present,
            forall|cx: int, cy: int|
                on_grid(cx, cy) && !(cx == x && cy == y) ==> #[trigger] final(self).food(cx, cy)
                    == old(self).food(cx, cy),
            final(self).agents == old(self).agents,
            final(self).grid == old(self).grid,
            final(self).step == old(self).step,
            final(self).next_id == old(self).next_id,
            final(self).rng == old(self).rng,
    {
        self.foods[y][x] = present;
    }

    /// Overwrites one agent's energy.
    pub(crate) fn set_energy(&mut self, i: usize, energy: u32)
        requires
            old(self).wf(),
            i < old(self).agents@.len(),
            energy <= old(self).agents@[i as int].ceiling(),
        ensures
            final(self).wf(),
            final(self).same_ground(old(self)),
            final(self).same_seats(old(self)),
            final(self).agents@ == old(self).agents@.update(
                i as int,
                (Agent { energy, ..old(self).agents@[i as int] }),
            ),
    {
        self.agents[i].energy = energy;
        proof {
            assert(self.agents_sound()) by {
                assert forall|j: int| 0 <= j < self.agents@.len() implies (
                #[trigger] self.agents@[j]).wf() && self.agents@[j].id < self.next_id by {
                    assert(old(self).agents@[j].wf());
                }
            }
            self.lemma_seats_kept(old(self));
        }
    }

    /// Registers an agent that carries the next identifier, on the vacant cell
    /// it stands on.
    pub(crate) fn add_agent(&mut self, agent: Agent, pos: Position)
        requires
            old(self).wf(),
            agent.wf(),
            agent.pos == pos,
            agent.id == old(self).next_id,
            old(self).next_id < usize::MAX,
            old(self).cell(pos.x as int, pos.y as int).is_none(),
        ensures
            final(self).wf(),
            final(self).agents@ == old(self).agents@.push(agent),
            final(self).next_id == old(self).next_id + 1,
            final(self).cell(pos.x as int, pos.y as int) == Some(agent.id),
            forall|x: int, y: int|
                on_grid(x, y) && !(x == pos.x && y == pos.y) ==> #[trigger] final(self).cell(x, y)
                    == old(self).cell(x, y),
            final(self).foods == old(self).foods,
            final(self).step == old(self).step,
            final(self).rng == old(self).rng,
    {
        let id: AgentId = agent.id;
        self.set_cell(pos.x, pos.y, Some(id));
        self.agents.push(agent);
        self.next_id = id + 1;
        proof {
            let n = old(self).agents@.len() as int;
            assert forall|i: int| 0 <= i < self.agents@.len() implies (
            #[trigger] self.agents@[i]).wf() && self.agents@[i].id < self.next_id by {
                if i < n {
                    assert(old(self).agents@[i].wf());
                }
            }
            assert forall|i: int, j: int| 0 <= i < j < self.agents@.len() implies (
            #[trigger] self.agents@[i]).id < (#[trigger] self.agents@[j]).id by {
                assert(old(self).agents@[i].wf());
                if j < n {
                    assert(old(self).agents@[j].wf());
                }
            }
            assert forall|i: int| 0 <= i < self.agents@.len() implies self.cell(
                (#[trigger] self.agents@[i]).pos.x as int,
                self.agents@[i].pos.y as int,
            ) == Some(self.agents@[i].id) by {
                if i < n {
                    assert(old(self).agents@[i].wf());
                }
            }
            assert forall|x: int, y: int|
                on_grid(x, y) && (#[trigger] self.cell(x, y)).is_some() implies self.stands_at(
                self.cell(x, y).unwrap(),
                x,
                y,
            ) by {
                if x == pos.x && y == pos.y {
                    assert(self.agents@[n].id == id);
                } else {
                    let held = old(self).cell(x, y).unwrap();
                    assert(old(self).stands_at(held, x, y));
                    let i = choose|i: int|
                        0 <= i < n && (#[trigger] old(self).agents@[i]).id == held
                            && old(self).agents@[i].pos.x == x
                            && old(self).agents@[i].pos.y == y;
                    assert(self.agents@[i].id == held);
                }
            }
        }
    }

    /// Whether no agent stands on the cell.
    pub fn is_vacant(&self, pos: Position) -> (vacant: bool)
        requires
            self.shaped(),
            pos.in_bounds(),
        ensures
            vacant == self.cell(pos.x as int, pos.y as int).is_none(),
    {
        self.grid[pos.y][pos.x].is_none()
    }

    /// Whether the cell holds food.
    pub fn has_food(&self, pos: Position) -> (present: bool)
        requires
            self.shaped(),
            pos.in_bounds(),
        ensures
            present == self.food(pos.x as int, pos.y as int),
    {
        self.foods[pos.y][pos.x]
    }

    /// Places a genesis agent with the given brain and colour on a cell. An
    /// occupied cell refuses it and leaves the world as it was.
    pub fn add_new_agent(
        &mut self,
        pos: Position,
        brain: Brain,
        color: Color,
    ) -> (placed: Option<()>)
        requires
            old(self).wf(),
            pos.in_bounds(),
            old(self).next_id < usize::MAX,
        ensures
            final(self).wf(),
            placed.is_some() <==> old(self).cell(pos.x as int, pos.y as int).is_none(),
            placed.is_none() ==> final(self).agents == old(self).agents && final(self).same_ground(
                old(self),
            ),
            placed.is_some() ==> {
                let born = final(self).agents@.last();
                &&& final(self).agents@ == old(self).agents@.push(born)
                &&& born.id == old(self).next_id
                &&& born.pos == pos
                &&& born.energy == INIT_ENERGY
                &&& born.max_energy == MAX_ENERGY
                &&& born.generation == 1
                &&& born.brain == brain
                &&& born.color == color
                &&& born.last_action.is_none()
                &&& born.age == 0
                &&& LIFESPAN_START <= born.lifespan < LIFESPAN_END
                &&& final(self).next_id == old(self).next_id + 1
                &&& final(self).cell(pos.x as int, pos.y as int) == Some(born.id)
                &&& forall|x: int, y: int|
                    on_grid(x, y) && !(x == pos.x && y == pos.y) ==> #[trigger] final(self).cell(
                        x,
                        y,
                    ) == old(self).cell(x, y)
                &&& final(self).foods == old(self).foods
                &&& final(self).step == old(self).step
            },
    {
        if self.grid[pos.y][pos.x].is_some() {
            return None;
        }
        let id: AgentId = self.next_id;
        let agent = Agent::new_random(id, pos, brain, color, &mut self.rng);
        self.add_agent(agent, pos);
        Some(())
    }

    /// Takes the agent at place `i` out of the registry and off the grid.
    fn remove_at(&mut self, i: usize)
        requires
            old(self).wf(),
            i < old(self).agents@.len(),
        ensures
            final(self).wf(),
            final(self).agents@ == old(self).agents@.remove(i as int),
            forall|x: int, y: int|
                on_grid(x, y) ==> #[trigger] final(self).cell(x, y) == old(self).cell(x, y)
                    || final(self).cell(x, y).is_none(),
            final(self).foods == old(self).foods,
            final(self).step == old(self).step,
            final(self).next_id == old(self).next_id,
            final(self).rng == old(self).rng,
    {
        proof {
            assert(self.agents@[i as int].wf());
        }
        let gone = self.agents.remove(i);
        let pos = gone.pos;
        self.set_cell(pos.x, pos.y, None);
        proof {
            let before = old(self);
            let n = before.agents@.len() as int;
            assert forall|j: int| 0 <= j < self.agents@.len() implies (
            #[trigger] self.agents@[j]).wf() && self.agents@[j].id < self.next_id by {
                let k = if j < i { j } else { j + 1 };
                assert(before.agents@[k].wf());
            }
            assert forall|j: int, l: int| 0 <= j < l < self.agents@.len() implies (
            #[trigger] self.agents@[j]).id < (#[trigger] self.agents@[l]).id by {
                let kj = if j < i { j } else { j + 1 };
                let kl = if l < i { l } else { l + 1 };
                assert(before.agents@[kj].id < before.agents@[kl].id);
            }
            assert forall|j: int| 0 <= j < self.agents@.len() implies self.cell(
                (#[trigger] self.agents@[j]).pos.x as int,
                self.agents@[j].pos.y as int,
            ) == Some(self.agents@[j].id) by {
                let k = if j < i { j } else { j + 1 };
                assert(before.agents@[k].wf());
                if before.agents@[k].pos == pos {
                    before.lemma_one_per_cell(k, i as int);
                }
            }
            assert forall|x: int, y: int|
                on_grid(x, y) && (#[trigger] self.cell(x, y)).is_some() implies self.stands_at(
                self.cell(x, y).unwrap(),
                x,
                y,
            ) by {
                let held = before.cell(x, y).unwrap();
                assert(before.stands_at(held, x, y));
                let k = choose|k: int|
                    0 <= k < n && (#[trigger] before.agents@[k]).id == held
                        && before.agents@[k].pos.x == x && before.agents@[k].pos.y == y;
                let j = if k < i { k } else { k - 1 };
                assert(self.agents@[j].id == held);
            }
        }
    }

    /// The agents that survive a cull: those with energy left, in order.
    pub open spec fn survivors(agents: Seq<Agent>) -> Seq<Agent> {
        agents.filter(|a: Agent| a.energy != 0)
    }

    /// Opens a tick: advances the step counter and culls.
    pub fn begin_step(&mut self)
        requires
            old(self).wf(),
            old(self).step < u64::MAX,
        ensures
            final(self).wf(),
            final(self).step == old(self).step + 1,
            final(self).agents@ == Self::survivors(old(self).agents@),
            forall|x: int, y: int|
                on_grid(x, y) ==> #[trigger] final(self).cell(x, y) == old(self).cell(x, y)
                    || final(self).cell(x, y).is_none(),
            final(self).foods == old(self).foods,
            final(self).next_id == old(self).next_id,
            final(self).rng == old(self).rng,
    {
        self.step += 1;
        self.cull();
    }

    /// Removes every agent whose energy is zero, from the registry and from
    /// the grid. The survivors keep their order and their cells; a cell is
    /// emptied only where its agent was removed.
    pub fn cull(&mut self)
        requires
            old(self).wf(),
        ensures
            final(self).wf(),
            final(self).step == old(self).step,
            final(self).agents@ == Self::survivors(old(self).agents@),
            forall|x: int, y: int|
                on_grid(x, y) ==> #[trigger] final(self).cell(x, y) == old(self).cell(x, y)
                    || final(self).cell(x, y).is_none(),
            final(self).foods == old(self).foods,
            final(self).next_id == old(self).next_id,
            final(self).rng == old(self).rng,
    {
        let ghost before = old(self).agents@;
        let ghost alive = |a: Agent| a.energy != 0;
        let mut i: usize = 0;
        let ghost mut k: int = 0;
        proof {
            reveal(Seq::filter);
            assert(before.take(0) =~= Seq::empty());
            assert(before.skip(0) =~= before);
            assert(self.agents@ =~= before.take(0).filter(alive) + before.skip(0));
        }
        while i < self.agents.len()
            invariant
                self.wf(),
                0 <= k <= before.len(),
                before == old(self).agents@,
                alive == |a: Agent| a.energy != 0,
                i == before.take(k).filter(alive).len(),
                self.agents@ == before.take(k).filter(alive) + before.skip(k),
                self.step == old(self).step,
                self.foods == old(self).foods,
                self.next_id == old(self).next_id,
                self.rng == old(self).rng,
                forall|x: int, y: int|
                    on_grid(x, y) ==> #[trigger] self.cell(x, y) == old(self).cell(x, y)
                        || self.cell(x, y).is_none(),
            decreases before.len() - k,
        {
            proof {
                assert(k < before.len());
                assert(self.agents@[i as int] == before.skip(k)[0]);
                assert(before.take(k + 1).drop_last() =~= before.take(k));
                assert(before.take(k + 1).last() == before[k]);
                reveal(Seq::filter);
            }
            if self.agents[i].energy == 0 {
                self.remove_at(i);
                proof {
                    assert(before.take(k + 1).filter(alive) == before.take(k).filter(alive));
                    assert(self.agents@ =~= before.take(k + 1).filter(alive) + before.skip(k + 1));
                    k = k + 1;
                }
            } else {
                proof {
                    assert(before.take(k + 1).filter(alive) == before.take(k).filter(alive).push(
                        before[k],
                    ));
                    assert(self.agents@ =~= before.take(k + 1).filter(alive) + before.skip(k + 1));
                    k = k + 1;
                }
                i += 1;
            }
        }
        proof {
            assert(before.skip(k) =~= Seq::empty());
            assert(before.take(k) =~= before);
            assert(self.agents@ =~= before.filter(alive));
        }
    }

    /// Finds a live agent's place in the registry.
    pub fn find(&self, id: AgentId) -> (found: Option<usize>)
        requires
            self.ids_ascending(),
        ensures
            found.is_some() <==> self.has_agent(id),
            found.is_some() ==> found.unwrap() == self.index_of(id) && found.unwrap()
                < self.agents@.len() && self.agents@[found.unwrap() as int].id == id,
    {
        let mut i: usize = 0;
        while i < self.agents.len()
            invariant
                0 <= i <= self.agents@.len(),
                self.ids_ascending(),
                forall|j: int| 0 <= j < i ==> (#[trigger] self.agents@[j]).id != id,
            decreases self.agents@.len() - i,
        {
            if self.agents[i].id == id {
                proof {
                    self.lemma_index_of(i as int);
                }
                return Some(i);
            }
            i += 1;
        }
        None
    }
}

} // verus!
