//! One agent's turn: paying, moving, attacking, healing.

use vstd::prelude::*;
use crate::agent::{
    decode_color, decoded_action, decoded_color, inherited_body, Action, Agent, Color, BODY_DRIFT,
};
use crate::brain::{Brain, OUTPUT_SIZE};
use crate::dice::choose_spot;
use crate::world::{
    adjacent, cell_of, index_in, on_grid, AgentId, Position, World, ATTACK_AMOUNT,
    CHILD_INIT_ENERGY, FOOD_ENERGY, HEAL_AMOUNT, HEIGHT, INTERACT_COST, LIFESPAN_END,
    LIFESPAN_START, METABOLIC_COST, MOVE_COST, REPRODUCE_COST, WIDTH,
};

verus! {

/// Energy after paying a cost, never below zero.
pub open spec fn spent(energy: u32, cost: u32) -> u32 {
    if energy >= cost {
        (energy - cost) as u32
    } else {
        0
    }
}

/// Energy after a gain, capped at the body size. The cap applies even where
/// the energy was above it before.
pub open spec fn topped(energy: u32, gain: int, max_energy: u32) -> u32 {
    if energy + gain <= max_energy {
        (energy + gain) as u32
    } else {
        max_energy
    }
}

/// The agent after paying a cost.
pub open spec fn paid(a: Agent, cost: u32) -> Agent {
    Agent { energy: spent(a.energy, cost), ..a }
}

/// What an interaction takes from a neighbour: for an attack, its magnitude
/// or all the neighbour has, whichever is less.
pub open spec fn taken(energy: u32, effect: int) -> int {
    if effect >= 0 {
        0
    } else if energy <= -effect {
        energy as int
    } else {
        -effect
    }
}

/// A neighbour's energy after an interaction: an attack takes from it, a
/// heal adds to it up to its body size.
pub open spec fn touched(energy: u32, max_energy: u32, effect: int) -> u32 {
    if effect < 0 {
        (energy - taken(energy, effect)) as u32
    } else {
        topped(energy, effect, max_energy)
    }
}

/// What an attacker absorbs from one neighbour: four fifths of what was
/// taken, rounded down.
pub open spec fn absorbed(energy: u32, effect: int) -> int {
    taken(energy, effect) * 4 / 5
}

/// The column of the `k`-th cell of the 3x3 block around column `cx`, in
/// raster order.
pub open spec fn slot_x(cx: int, k: int) -> int {
    cx + k % 3 - 1
}

/// The row of the `k`-th cell of the 3x3 block around row `cy`.
pub open spec fn slot_y(cy: int, k: int) -> int {
    cy + k / 3 - 1
}

/// The raster index, within the 3x3 block around `(cx, cy)`, of the cell
/// `(x, y)`.
pub open spec fn slot_of(cx: int, cy: int, x: int, y: int) -> int {
    (y - cy + 1) * 3 + (x - cx + 1)
}

/// The occupant of the `k`-th neighbouring cell of agent `me`; none for the
/// centre, for a cell off the grid and for a vacant one.
pub open spec fn neighbour(
    agents: Seq<Agent>,
    grid: Seq<Vec<Option<AgentId>>>,
    me: int,
    k: int,
) -> Option<AgentId> {
    let x = slot_x(agents[me].pos.x as int, k);
    let y = slot_y(agents[me].pos.y as int, k);
    if k != 4 && on_grid(x, y) {
        cell_of(grid, x, y)
    } else {
        None
    }
}

/// The acting agent's energy once it has paid for the interaction and
/// visited the first `k` cells of its 3x3 block: each occupied neighbour of
/// an attack adds what was absorbed from it, capped at the body size.
pub open spec fn reaped(
    agents: Seq<Agent>,
    grid: Seq<Vec<Option<AgentId>>>,
    me: int,
    effect: int,
    k: int,
) -> u32
    decreases k,
{
    if k <= 0 {
        spent(agents[me].energy, INTERACT_COST)
    } else {
        let before = reaped(agents, grid, me, effect, k - 1);
        let held = neighbour(agents, grid, me, k - 1);
        if effect < 0 && held.is_some() {
            topped(
                before,
                absorbed(agents[index_in(agents, held.unwrap())].energy, effect),
                agents[me].max_energy,
            )
        } else {
            before
        }
    }
}

/// The energy of agent `j` once agent `me` has visited the first `k` cells
/// of its 3x3 block.
pub open spec fn energy_after_slots(
    agents: Seq<Agent>,
    grid: Seq<Vec<Option<AgentId>>>,
    me: int,
    effect: int,
    k: int,
    j: int,
) -> u32 {
    let a = agents[me];
    let b = agents[j];
    if j == me {
        reaped(agents, grid, me, effect, k)
    } else if adjacent(b.pos.x as int, b.pos.y as int, a.pos.x as int, a.pos.y as int) && slot_of(
        a.pos.x as int,
        a.pos.y as int,
        b.pos.x as int,
        b.pos.y as int,
    ) < k {
        touched(b.energy, b.max_energy, effect)
    } else {
        b.energy
    }
}

/// The agents after agent `me` has attacked (negative effect) or healed its
/// eight neighbours: only energies change.
pub open spec fn interacted(
    agents: Seq<Agent>,
    grid: Seq<Vec<Option<AgentId>>>,
    me: int,
    effect: int,
) -> Seq<Agent> {
    Seq::new(
        agents.len(),
        |j: int| Agent { energy: energy_after_slots(agents, grid, me, effect, 9, j), ..agents[j] },
    )
}

/// The column a move aims at.
pub open spec fn target_x(a: Agent, action: Action) -> int {
    a.pos.x + action.dx()
}

/// The row a move aims at.
pub open spec fn target_y(a: Agent, action: Action) -> int {
    a.pos.y + action.dy()
}

/// Whether agent `me` can take the step: the target is on the grid and vacant.
pub open spec fn can_step(
    agents: Seq<Agent>,
    grid: Seq<Vec<Option<AgentId>>>,
    me: int,
    action: Action,
) -> bool {
    let tx = target_x(agents[me], action);
    let ty = target_y(agents[me], action);
    on_grid(tx, ty) && cell_of(grid, tx, ty).is_none()
}

/// The agent after a successful step, which ends on food or not.
pub open spec fn stepped(a: Agent, action: Action, eats: bool) -> Agent {
    let tired = spent(a.energy, MOVE_COST);
    Agent {
        pos: Position { x: target_x(a, action) as usize, y: target_y(a, action) as usize },
        energy: if eats {
            topped(tired, FOOD_ENERGY as int, a.max_energy)
        } else {
            tired
        },
        ..a
    }
}

/// The relation between the world before and after agent `me` tries a move.
/// The move cost is always paid. A step onto a vacant cell of the grid
/// carries the agent over, and food found there is eaten; otherwise nothing
/// else changes.
pub open spec fn moved(
    agents: Seq<Agent>,
    grid: Seq<Vec<Option<AgentId>>>,
    foods: Seq<Vec<bool>>,
    me: int,
    action: Action,
    agents_after: Seq<Agent>,
    grid_after: Seq<Vec<Option<AgentId>>>,
    foods_after: Seq<Vec<bool>>,
) -> bool {
    let a = agents[me];
    let tx = target_x(a, action);
    let ty = target_y(a, action);
    if can_step(agents, grid, me, action) {
        &&& agents_after == agents.update(me, stepped(a, action, foods[ty]@[tx]))
        &&& forall|x: int, y: int|
            on_grid(x, y) ==> #[trigger] grid_after[y]@[x] == if x == tx && y == ty {
                Some(a.id)
            } else if x == a.pos.x && y == a.pos.y {
                None
            } else {
                grid[y]@[x]
            }
        &&& forall|x: int, y: int|
            on_grid(x, y) ==> #[trigger] foods_after[y]@[x] == (foods[y]@[x] && !(x == tx && y
                == ty))
    } else {
        &&& agents_after == agents.update(me, paid(a, MOVE_COST))
        &&& grid_after == grid
        &&& foods_after == foods
    }
}

/// The agent after the part of a turn that every action shares: the new
/// colour is taken on and the metabolic cost is paid.
pub open spec fn prepared(a: Agent, color: Color) -> Agent {
    Agent { color, energy: spent(a.energy, METABOLIC_COST), ..a }
}

/// The relation between the world before and after agent `me` applies an
/// action with a new colour.
pub open spec fn applied(
    agents: Seq<Agent>,
    grid: Seq<Vec<Option<AgentId>>>,
    foods: Seq<Vec<bool>>,
    me: int,
    action: Action,
    color: Color,
    agents_after: Seq<Agent>,
    grid_after: Seq<Vec<Option<AgentId>>>,
    foods_after: Seq<Vec<bool>>,
) -> bool {
    let base = agents.update(me, prepared(agents[me], color));
    if action.is_move() {
        moved(base, grid, foods, me, action, agents_after, grid_after, foods_after)
    } else {
        &&& grid_after == grid
        &&& foods_after == foods
        &&& agents_after == if action == Action::Attack {
            interacted(base, grid, me, ATTACK_AMOUNT as int)
        } else if action == Action::Heal {
            interacted(base, grid, me, HEAL_AMOUNT as int)
        } else {
            base
        }
    }
}

/// The agent after the bookkeeping that opens its turn: the action is
/// recorded, the agent is a tick older, and on reaching its lifespan it
/// loses all energy.
pub open spec fn aged(a: Agent, action: Action) -> Agent {
    Agent {
        last_action: Some(action),
        age: (a.age + 1) as u32,
        energy: if a.age + 1 >= a.lifespan {
            0
        } else {
            a.energy
        },
        ..a
    }
}

/// Whether the `k`-th neighbouring cell of agent `me` is on the grid and vacant.
pub open spec fn free_slot(
    agents: Seq<Agent>,
    grid: Seq<Vec<Option<AgentId>>>,
    me: int,
    k: int,
) -> bool {
    let x = slot_x(agents[me].pos.x as int, k);
    let y = slot_y(agents[me].pos.y as int, k);
    0 <= k < 9 && k != 4 && on_grid(x, y) && cell_of(grid, x, y).is_none()
}

/// Whether `site` is the `k`-th neighbouring cell of agent `me`.
pub open spec fn is_slot(agents: Seq<Agent>, me: int, k: int, site: Position) -> bool {
    site.x == slot_x(agents[me].pos.x as int, k) && site.y == slot_y(agents[me].pos.y as int, k)
}

/// Whether `site` is a vacant neighbouring cell of agent `me`.
pub open spec fn birth_site(
    agents: Seq<Agent>,
    grid: Seq<Vec<Option<AgentId>>>,
    me: int,
    site: Position,
) -> bool {
    exists|k: int| #[trigger] free_slot(agents, grid, me, k) && is_slot(agents, me, k, site)
}

/// Whether agent `me` has a vacant neighbouring cell.
pub open spec fn has_room(agents: Seq<Agent>, grid: Seq<Vec<Option<AgentId>>>, me: int) -> bool {
    exists|k: int| #[trigger] free_slot(agents, grid, me, k)
}

/// The relation between the agents before and after agent `me` tries to
/// reproduce. Below its body size the agent does nothing. Otherwise it pays
/// the cost, and a birth site is found exactly where a neighbouring cell is
/// vacant; the site is one of the vacant neighbouring cells.
pub open spec fn reproduced(
    agents: Seq<Agent>,
    grid: Seq<Vec<Option<AgentId>>>,
    me: int,
    agents_after: Seq<Agent>,
    site: Option<Position>,
) -> bool {
    let a = agents[me];
    if a.energy < a.max_energy {
        site.is_none() && agents_after == agents
    } else {
        &&& agents_after == agents.update(me, paid(a, REPRODUCE_COST))
        &&& site.is_some() <==> has_room(agents, grid, me)
        &&& site.is_some() ==> birth_site(agents, grid, me, site.unwrap())
    }
}

/// The relation between the world before and after the whole of agent
/// `me`'s turn that follows its decision, by way of the agents `mid` as they
/// stand between the action and the attempt to reproduce.
pub open spec fn turn_taken(
    agents: Seq<Agent>,
    grid: Seq<Vec<Option<AgentId>>>,
    foods: Seq<Vec<bool>>,
    me: int,
    action: Action,
    color: Color,
    mid: Seq<Agent>,
    agents_after: Seq<Agent>,
    grid_after: Seq<Vec<Option<AgentId>>>,
    foods_after: Seq<Vec<bool>>,
    site: Option<Position>,
) -> bool {
    &&& applied(
        agents.update(me, aged(agents[me], action)),
        grid,
        foods,
        me,
        action,
        color,
        mid,
        grid_after,
        foods_after,
    )
    &&& reproduced(mid, grid_after, me, agents_after, site)
}

impl World {
    /// Agent `id` pays for a move and takes the step if it can.
    pub fn move_agent(&mut self, id: AgentId, action: Action)
        requires
            old(self).wf(),
            old(self).has_agent(id),
        ensures
            final(self).wf(),
            final(self).step == old(self).step,
            final(self).next_id == old(self).next_id,
            final(self).rng == old(self).rng,
            moved(
                old(self).agents@,
                old(self).grid@,
                old(self).foods@,
                old(self).index_of(id),
                action,
                final(self).agents@,
                final(self).grid@,
                final(self).foods@,
            ),
    {
        let i: usize = self.find(id).unwrap();
        proof {
            assert(self.agents@[i as int].wf());
        }
        let cx: usize = self.agents[i].pos.x;
        let cy: usize = self.agents[i].pos.y;
        let energy: u32 = self.agents[i].energy;
        let max_energy: u32 = self.agents[i].max_energy;
        let tired: u32 = if energy >= MOVE_COST { energy - MOVE_COST } else { 0 };
        self.set_energy(i, tired);
        let dx: i64 = match action {
            Action::Left => -1,
            Action::Right => 1,
            _ => 0,
        };
        let dy: i64 = match action {
            Action::Up => -1,
            Action::Down => 1,
            _ => 0,
        };
        let nx: i64 = cx as i64 + dx;
        let ny: i64 = cy as i64 + dy;
        if nx < 0 || ny < 0 || nx >= WIDTH as i64 || ny >= HEIGHT as i64 {
            return;
        }
        let ux: usize = nx as usize;
        let uy: usize = ny as usize;
        if self.grid[uy][ux].is_none() {
            let ghost mid = *self;
            let eats: bool = self.foods[uy][ux];
            self.set_cell(cx, cy, None);
            self.set_cell(ux, uy, Some(id));
            self.agents[i].pos = Position { x: ux, y: uy };
            if eats {
                self.set_food(ux, uy, false);
                let fed: u32 = if tired + FOOD_ENERGY <= max_energy {
                    tired + FOOD_ENERGY
                } else {
                    max_energy
                };
                self.agents[i].energy = fed;
            }
            proof {
                let n = mid.agents@.len() as int;
                assert(self.agents@ =~= old(self).agents@.update(
                    i as int,
                    stepped(old(self).agents@[i as int], action, eats),
                ));
                assert forall|j: int| 0 <= j < n implies (#[trigger] self.agents@[j]).wf()
                    && self.agents@[j].id < self.next_id by {
                    assert(mid.agents@[j].wf());
                }
                assert forall|j: int, l: int| 0 <= j < l < n implies (#[trigger] self.agents@[j]).id
                    < (#[trigger] self.agents@[l]).id by {
                    assert(mid.agents@[j].id < mid.agents@[l].id);
                }
                assert forall|j: int| 0 <= j < n implies self.cell(
                    (#[trigger] self.agents@[j]).pos.x as int,
                    self.agents@[j].pos.y as int,
                ) == Some(self.agents@[j].id) by {
                    assert(mid.agents@[j].wf());
                    if j != i {
                        if mid.agents@[j].pos == mid.agents@[i as int].pos {
                            mid.lemma_one_per_cell(j, i as int);
                        }
                    }
                }
                assert forall|x: int, y: int|
                    on_grid(x, y) && (#[trigger] self.cell(x, y)).is_some() implies self.stands_at(
                    self.cell(x, y).unwrap(),
                    x,
                    y,
                ) by {
                    if x == ux && y == uy {
                        assert(self.agents@[i as int].id == id);
                    } else {
                        let held = mid.cell(x, y).unwrap();
                        assert(mid.stands_at(held, x, y));
                        let j = choose|j: int|
                            0 <= j < n && (#[trigger] mid.agents@[j]).id == held
                                && mid.agents@[j].pos.x == x && mid.agents@[j].pos.y == y;
                        assert(self.agents@[j].id == held);
                    }
                }
            }
        }
    }

    /// Where the `k`-th neighbouring cell of agent `me` shows no occupant, no
    /// other agent stands on it.
    proof fn lemma_slot_vacant(&self, me: int, k: int, j: int)
        requires
            self.wf(),
            0 <= me < self.agents@.len(),
            0 <= j < self.agents@.len(),
            j != me,
            0 <= k < 9,
            neighbour(self.agents@, self.grid@, me, k).is_none(),
        ensures
            !(adjacent(
                self.agents@[j].pos.x as int,
                self.agents@[j].pos.y as int,
                self.agents@[me].pos.x as int,
                self.agents@[me].pos.y as int,
            ) && slot_of(
                self.agents@[me].pos.x as int,
                self.agents@[me].pos.y as int,
                self.agents@[j].pos.x as int,
                self.agents@[j].pos.y as int,
            ) == k),
    {
        assert(self.agents@[j].wf());
        assert(self.agents@[me].wf());
    }

    /// Agent `id` pays the interaction cost and then attacks (negative
    /// effect) or heals each of its eight neighbours.
    #[verifier::rlimit(60)]
    #[verifier::spinoff_prover]
    pub fn interact_area(&mut self, id: AgentId, effect: i32)
        requires
            old(self).wf(),
            old(self).has_agent(id),
        ensures
            final(self).wf(),
            final(self).same_ground(old(self)),
            final(self).agents@ == interacted(
                old(self).agents@,
                old(self).grid@,
                old(self).index_of(id),
                effect as int,
            ),
    {
        let me: usize = self.find(id).unwrap();
        proof {
            assert(self.agents@[me as int].wf());
        }
        let cx: i64 = self.agents[me].pos.x as i64;
        let cy: i64 = self.agents[me].pos.y as i64;
        let max_energy: u32 = self.agents[me].max_energy;
        let energy: u32 = self.agents[me].energy;
        let after_cost: u32 = if energy >= INTERACT_COST { energy - INTERACT_COST } else { 0 };
        self.set_energy(me, after_cost);
        let ghost before = old(self).agents@;
        let ghost rows = old(self).grid@;
        let mut k: i64 = 0;
        while k < 9
            invariant
                0 <= k <= 9,
                self.wf(),
                old(self).wf(),
                self.same_ground(old(self)),
                self.same_seats(old(self)),
                before == old(self).agents@,
                rows == old(self).grid@,
                me < before.len(),
                before[me as int].id == id,
                cx == before[me as int].pos.x,
                cy == before[me as int].pos.y,
                max_energy == before[me as int].max_energy,
                self.agents@.len() == before.len(),
                forall|j: int|
                    0 <= j < before.len() ==> #[trigger] self.agents@[j] == (Agent {
                        energy: energy_after_slots(before, rows, me as int, effect as int, k as int, j),
                        ..before[j]
                    }),
            decreases 9 - k,
        {
            let nx: i64 = cx + k % 3 - 1;
            let ny: i64 = cy + k / 3 - 1;
            let ghost now = self.agents@;
            let mut hit: bool = false;
            proof {
                assert(before[me as int].wf());
                assert(nx == slot_x(cx as int, k as int));
                assert(ny == slot_y(cy as int, k as int));
            }
            if k != 4 && nx >= 0 && ny >= 0 && nx < WIDTH as i64 && ny < HEIGHT as i64 {
                let held: Option<AgentId> = self.grid[ny as usize][nx as usize];
                if held.is_some() {
                    let target_id: AgentId = held.unwrap();
                    proof {
                        self.lemma_occupant(nx as int, ny as int);
                    }
                    let t: usize = self.find(target_id).unwrap();
                    proof {
                        old(self).lemma_index_of(t as int);
                        assert(self.agents@[t as int].pos == before[t as int].pos);
                        assert(before[t as int].wf());
                        assert(self.agents@[t as int].wf());
                        assert(t != me);
                        assert(slot_of(cx as int, cy as int, nx as int, ny as int) == k);
                        assert(self.agents@[t as int].energy == before[t as int].energy);
                    }
                    hit = true;
                    let target_energy: u32 = self.agents[t].energy;
                    let target_max: u32 = self.agents[t].max_energy;
                    if effect < 0 {
                        let damage: i64 = -(effect as i64);
                        let actual: i64 = if (target_energy as i64) <= damage {
                            target_energy as i64
                        } else {
                            damage
                        };
                        let absorb: i64 = actual * 4 / 5;
                        self.set_energy(t, (target_energy as i64 - actual) as u32);
                        let mine: i64 = self.agents[me].energy as i64;
                        proof {
                            assert(self.agents@[me as int].wf());
                        }
                        let gained: u32 = if mine + absorb <= max_energy as i64 {
                            (mine + absorb) as u32
                        } else {
                            max_energy
                        };
                        self.set_energy(me, gained);
                    } else {
                        let healed: u32 = if target_energy as i64 + effect as i64
                            <= target_max as i64 {
                            (target_energy as i64 + effect as i64) as u32
                        } else {
                            target_max
                        };
                        self.set_energy(t, healed);
                    }
                    proof {
                        assert forall|j: int| 0 <= j < before.len() implies #[trigger] self.agents@[j]
                            == (Agent {
                            energy: energy_after_slots(
                                before,
                                rows,
                                me as int,
                                effect as int,
                                k + 1,
                                j,
                            ),
                            ..before[j]
                        }) by {
                            assert(now[j] == (Agent {
                                energy: energy_after_slots(
                                    before,
                                    rows,
                                    me as int,
                                    effect as int,
                                    k as int,
                                    j,
                                ),
                                ..before[j]
                            }));
                            assert(before[j].wf());
                            if j != me && j != t {
                                if before[j].pos == before[t as int].pos {
                                    old(self).lemma_one_per_cell(j, t as int);
                                }
                            }
                        }
                    }
                }
            }
            proof {
                if !hit {
                    assert(neighbour(before, rows, me as int, k as int).is_none());
                    assert forall|j: int| 0 <= j < before.len() implies #[trigger] self.agents@[j]
                        == (Agent {
                        energy: energy_after_slots(before, rows, me as int, effect as int, k + 1, j),
                        ..before[j]
                    }) by {
                        if j != me {
                            old(self).lemma_slot_vacant(me as int, k as int, j);
                        }
                    }
                }
            }
            k += 1;
        }
        proof {
            assert(self.agents@ =~= interacted(before, rows, me as int, effect as int));
        }
    }

    /// Agent `id` takes on a colour, pays the metabolic cost and carries out
    /// its action.
    pub fn apply_action(&mut self, id: AgentId, action: Action, new_color: Color)
        requires
            old(self).wf(),
            old(self).has_agent(id),
        ensures
            final(self).wf(),
            final(self).step == old(self).step,
            final(self).next_id == old(self).next_id,
            final(self).rng == old(self).rng,
            applied(
                old(self).agents@,
                old(self).grid@,
                old(self).foods@,
                old(self).index_of(id),
                action,
                new_color,
                final(self).agents@,
                final(self).grid@,
                final(self).foods@,
            ),
    {
        let i: usize = self.find(id).unwrap();
        let energy: u32 = self.agents[i].energy;
        self.agents[i].color = new_color;
        self.agents[i].energy = if energy >= METABOLIC_COST { energy - METABOLIC_COST } else { 0 };
        proof {
            assert(self.agents@ =~= old(self).agents@.update(
                i as int,
                prepared(old(self).agents@[i as int], new_color),
            ));
            assert forall|j: int| 0 <= j < self.agents@.len() implies (#[trigger] self.agents@[j]).wf()
                && self.agents@[j].id < self.next_id by {
                assert(old(self).agents@[j].wf());
            }
            self.lemma_seats_kept(old(self));
            self.lemma_index_of(i as int);
        }
        match action {
            Action::Up | Action::Down | Action::Left | Action::Right => {
                self.move_agent(id, action);
            },
            Action::Stay => {},
            Action::Attack => {
                self.interact_area(id, ATTACK_AMOUNT);
            },
            Action::Heal => {
                self.interact_area(id, HEAL_AMOUNT as i32);
            },
        }
    }

    /// The part of agent `id`'s turn that follows its decision: the action
    /// is recorded, the agent ages and may reach its lifespan, and the
    /// action is applied. An agent that is no longer alive is passed over.
    pub fn take_action(&mut self, id: AgentId, action: Action, new_color: Color)
        requires
            old(self).wf(),
            old(self).has_agent(id) ==> old(self).agents@[old(self).index_of(id)].age < u32::MAX,
        ensures
            final(self).wf(),
            final(self).step == old(self).step,
            final(self).next_id == old(self).next_id,
            final(self).rng == old(self).rng,
            !old(self).has_agent(id) ==> final(self).agents == old(self).agents
                && final(self).same_ground(old(self)),
            old(self).has_agent(id) ==> applied(
                old(self).agents@.update(
                    old(self).index_of(id),
                    aged(old(self).agents@[old(self).index_of(id)], action),
                ),
                old(self).grid@,
                old(self).foods@,
                old(self).index_of(id),
                action,
                new_color,
                final(self).agents@,
                final(self).grid@,
                final(self).foods@,
            ),
    {
        let found = self.find(id);
        if found.is_none() {
            return;
        }
        let i: usize = found.unwrap();
        self.agents[i].last_action = Some(action);
        self.agents[i].age += 1;
        if self.agents[i].age >= self.agents[i].lifespan {
            self.agents[i].energy = 0;
        }
        proof {
            assert(self.agents@ =~= old(self).agents@.update(
                i as int,
                aged(old(self).agents@[i as int], action),
            ));
            assert forall|j: int| 0 <= j < self.agents@.len() implies (#[trigger] self.agents@[j]).wf()
                && self.agents@[j].id < self.next_id by {
                assert(old(self).agents@[j].wf());
            }
            self.lemma_seats_kept(old(self));
            self.lemma_index_of(i as int);
        }
        self.apply_action(id, action, new_color);
    }

    /// Agent `id`, if it is alive and its energy has reached its body size,
    /// pays the reproduction cost and picks a birth site among its vacant
    /// neighbouring cells. The cost is paid even where no cell is vacant.
    pub fn try_reproduce(&mut self, id: AgentId) -> (site: Option<Position>)
        requires
            old(self).wf(),
        ensures
            final(self).wf(),
            final(self).same_terrain(old(self)),
            ({
                let a = old(self).agents@[old(self).index_of(id)];
                !old(self).has_agent(id) || a.energy < a.max_energy ==> final(self).rng == old(self).rng
            }),
            !old(self).has_agent(id) ==> site.is_none() && final(self).agents == old(self).agents,
            old(self).has_agent(id) ==> reproduced(
                old(self).agents@,
                old(self).grid@,
                old(self).index_of(id),
                final(self).agents@,
                site,
            ),
    {
        let found = self.find(id);
        if found.is_none() {
            return None;
        }
        let i: usize = found.unwrap();
        proof {
            assert(self.agents@[i as int].wf());
        }
        let energy: u32 = self.agents[i].energy;
        if energy < self.agents[i].max_energy {
            return None;
        }
        let cx: i64 = self.agents[i].pos.x as i64;
        let cy: i64 = self.agents[i].pos.y as i64;
        self.set_energy(i, if energy >= REPRODUCE_COST { energy - REPRODUCE_COST } else { 0 });
        let ghost before = old(self).agents@;
        let ghost rows = old(self).grid@;
        let mut free_spots: Vec<Position> = Vec::new();
        let mut k: i64 = 0;
        while k < 9
            invariant
                0 <= k <= 9,
                self.shaped(),
                self.grid@ == rows,
                i < before.len(),
                cx == before[i as int].pos.x,
                cy == before[i as int].pos.y,
                cx < WIDTH,
                cy < HEIGHT,
                forall|s: int|
                    0 <= s < free_spots@.len() ==> birth_site(
                        before,
                        rows,
                        i as int,
                        #[trigger] free_spots@[s],
                    ),
                forall|q: int|
                    0 <= q < k && #[trigger] free_slot(before, rows, i as int, q)
                        ==> free_spots@.len() > 0,
            decreases 9 - k,
        {
            let nx: i64 = cx + k % 3 - 1;
            let ny: i64 = cy + k / 3 - 1;
            if k != 4 && nx >= 0 && ny >= 0 && nx < WIDTH as i64 && ny < HEIGHT as i64 {
                if self.grid[ny as usize][nx as usize].is_none() {
                    let spot = Position { x: nx as usize, y: ny as usize };
                    let ghost listed = free_spots@;
                    free_spots.push(spot);
                    proof {
                        assert(free_slot(before, rows, i as int, k as int));
                        assert(is_slot(before, i as int, k as int, spot));
                        assert(birth_site(before, rows, i as int, spot));
                        assert forall|s: int| 0 <= s < free_spots@.len() implies birth_site(
                            before,
                            rows,
                            i as int,
                            #[trigger] free_spots@[s],
                        ) by {
                            if s < listed.len() {
                                assert(free_spots@[s] == listed[s]);
                            }
                        }
                    }
                }
            }
            k += 1;
        }
        let pick = choose_spot(&free_spots, &mut self.rng);
        proof {
            if pick.is_none() {
                assert forall|q: int| !#[trigger] free_slot(before, rows, i as int, q) by {
                    if free_slot(before, rows, i as int, q) {
                        assert(0 <= q < 9);
                    }
                }
            }
        }
        pick
    }

    /// Agent `id` bears a child on a vacant cell. `child_brain` is the
    /// parent's brain after mutation; the child takes the next identifier
    /// and is registered at once, in the registry and on the grid.
    pub fn bear_child(&mut self, id: AgentId, site: Position, child_brain: Brain)
        requires
            old(self).wf(),
            old(self).has_agent(id),
            old(self).agents@[old(self).index_of(id)].generation < u32::MAX,
            old(self).next_id < usize::MAX,
            site.in_bounds(),
            old(self).cell(site.x as int, site.y as int).is_none(),
        ensures
            final(self).wf(),
            final(self).next_id == old(self).next_id + 1,
            final(self).foods == old(self).foods,
            final(self).step == old(self).step,
            final(self).cell(site.x as int, site.y as int) == Some(old(self).next_id),
            forall|x: int, y: int|
                on_grid(x, y) && !(x == site.x && y == site.y) ==> #[trigger] final(self).cell(x, y)
                    == old(self).cell(x, y),
            ({
                let parent = old(self).agents@[old(self).index_of(id)];
                let child = final(self).agents@.last();
                &&& final(self).agents@ == old(self).agents@.push(child)
                &&& child.id == old(self).next_id
                &&& child.pos == site
                &&& child.energy == CHILD_INIT_ENERGY
                &&& exists|drift: int|
                    -BODY_DRIFT <= drift <= BODY_DRIFT && child.max_energy
                        == #[trigger] inherited_body(parent.max_energy, drift)
                &&& child.generation == parent.generation + 1
                &&& child.generation >= 2
                &&& child.brain == child_brain
                &&& child.color == parent.color
                &&& child.last_action.is_none()
                &&& child.age == 0
                &&& LIFESPAN_START <= child.lifespan < LIFESPAN_END
            }),
    {
        let i: usize = self.find(id).unwrap();
        let new_id: AgentId = self.next_id;
        let child = self.agents[i].new_child(new_id, site, child_brain, &mut self.rng);
        self.add_agent(child, site);
    }

    /// The whole of agent `id`'s turn that follows the evaluation of its
    /// brain: the output is decoded into an action and a colour, the action
    /// is taken, and the agent tries to reproduce. The result is the birth
    /// site, where a child is due. An agent that is no longer alive is
    /// passed over.
    pub fn finish_turn(&mut self, id: AgentId, output: &[u32]) -> (site: Option<Position>)
        requires
            old(self).wf(),
            output@.len() >= OUTPUT_SIZE,
            old(self).has_agent(id) ==> old(self).agents@[old(self).index_of(id)].age < u32::MAX,
        ensures
            final(self).wf(),
            final(self).step == old(self).step,
            final(self).next_id == old(self).next_id,
            !old(self).has_agent(id) ==> site.is_none() && final(self).agents == old(self).agents
                && final(self).same_ground(old(self)),
            old(self).has_agent(id) ==> exists|mid: Seq<Agent>, color: Color|
                color@ == decoded_color(output@) && #[trigger] turn_taken(
                    old(self).agents@,
                    old(self).grid@,
                    old(self).foods@,
                    old(self).index_of(id),
                    decoded_action(output@),
                    color,
                    mid,
                    final(self).agents@,
                    final(self).grid@,
                    final(self).foods@,
                    site,
                ),
    {
        let found = self.find(id);
        if found.is_none() {
            return None;
        }
        let ghost i = found.unwrap() as int;
        let action = Action::from_output(output);
        let color = decode_color(output);
        self.take_action(id, action, color);
        let ghost mid = self.agents@;
        proof {
            assert(mid.len() == old(self).agents@.len());
            assert(mid[i].id == id);
            self.lemma_index_of(i);
        }
        let site = self.try_reproduce(id);
        proof {
            assert(turn_taken(
                old(self).agents@,
                old(self).grid@,
                old(self).foods@,
                i,
                action,
                color,
                mid,
                self.agents@,
                self.grid@,
                self.foods@,
                site,
            ));
        }
        site
    }
}

} // verus!
