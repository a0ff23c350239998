//! Perception: what an agent sees of the square field around it.

use vstd::prelude::*;
use crate::agent::Agent;
use crate::brain::{INPUT_FIELD_SIZE, INPUT_SIZE};
use crate::scalar::{ONE_BITS, ZERO_BITS};
use crate::world::{index_in, on_grid, AgentId, World, HEIGHT, WIDTH};

verus! {

/// The scalar that encodes a flag: one for true, zero for false.
pub open spec fn flag(set: bool) -> u32 {
    if set {
        ONE_BITS
    } else {
        ZERO_BITS
    }
}

/// The column of the `c`-th cell of the field of view around column `cx`,
/// in raster order.
pub open spec fn field_x(cx: int, c: int) -> int {
    cx + c % 7 - 3
}

/// The row of the `c`-th cell of the field of view around row `cy`.
pub open spec fn field_y(cy: int, c: int) -> int {
    cy + c / 7 - 3
}

/// Entry `k` of the perception vector of agent `me`. Each cell of the field
/// contributes six scalars: wall, food, other agent, and that agent's three
/// colour channels. A cell off the grid is a wall and nothing else; the
/// agent's own cell never shows an agent.
pub open spec fn perceived(
    agents: Seq<Agent>,
    grid: Seq<Vec<Option<AgentId>>>,
    foods: Seq<Vec<bool>>,
    me: int,
    k: int,
) -> u32 {
    let c = k / 6;
    let channel = k % 6;
    let x = field_x(agents[me].pos.x as int, c);
    let y = field_y(agents[me].pos.y as int, c);
    if !on_grid(x, y) {
        flag(channel == 0)
    } else {
        let held = grid[y]@[x];
        let other = held.is_some() && held.unwrap() != agents[me].id;
        if channel == 0 {
            ZERO_BITS
        } else if channel == 1 {
            flag(foods[y]@[x])
        } else if channel == 2 {
            flag(other)
        } else if other {
            agents[index_in(agents, held.unwrap())].color@[channel - 3]
        } else {
            ZERO_BITS
        }
    }
}

impl World {
    /// The perception vector of agent `id`.
    pub fn get_input(&self, id: AgentId) -> (input: Vec<u32>)
        requires
            self.wf(),
            self.has_agent(id),
        ensures
            input@.len() == INPUT_SIZE,
            forall|k: int|
                0 <= k < INPUT_SIZE ==> #[trigger] input@[k] == perceived(
                    self.agents@,
                    self.grid@,
                    self.foods@,
                    self.index_of(id),
                    k,
                ),
    {
        let me: usize = self.find(id).unwrap();
        proof {
            assert(self.agents@[me as int].wf());
        }
        let cx: i64 = self.agents[me].pos.x as i64;
        let cy: i64 = self.agents[me].pos.y as i64;
        let mut input: Vec<u32> = Vec::with_capacity(INPUT_SIZE);
        let mut c: i64 = 0;
        while c < INPUT_FIELD_SIZE as i64
            invariant
                0 <= c <= INPUT_FIELD_SIZE,
                self.wf(),
                me < self.agents@.len(),
                me == self.index_of(id),
                self.agents@[me as int].id == id,
                cx == self.agents@[me as int].pos.x,
                cy == self.agents@[me as int].pos.y,
                input@.len() == 6 * c,
                forall|k: int|
                    0 <= k < 6 * c ==> #[trigger] input@[k] == perceived(
                        self.agents@,
                        self.grid@,
                        self.foods@,
                        me as int,
                        k,
                    ),
            decreases INPUT_FIELD_SIZE - c,
        {
            let nx: i64 = cx + c % 7 - 3;
            let ny: i64 = cy + c / 7 - 3;
            let is_wall: bool = nx < 0 || ny < 0 || nx >= WIDTH as i64 || ny >= HEIGHT as i64;
            let mut is_food: bool = false;
            let mut is_agent: bool = false;
            let mut color: [u32; 3] = [ZERO_BITS, ZERO_BITS, ZERO_BITS];
            if !is_wall {
                let ux: usize = nx as usize;
                let uy: usize = ny as usize;
                is_food = self.foods[uy][ux];
                let held: Option<AgentId> = self.grid[uy][ux];
                if held.is_some() && held.unwrap() != id {
                    is_agent = true;
                    proof {
                        self.lemma_occupant(nx as int, ny as int);
                    }
                    let found = self.find(held.unwrap());
                    if found.is_some() {
                        color = self.agents[found.unwrap()].color;
                    }
                }
            }
            let ghost seen = input@;
            input.push(if is_wall { ONE_BITS } else { ZERO_BITS });
            input.push(if is_food { ONE_BITS } else { ZERO_BITS });
            input.push(if is_agent { ONE_BITS } else { ZERO_BITS });
            input.push(color[0]);
            input.push(color[1]);
            input.push(color[2]);
            proof {
                assert forall|k: int| 0 <= k < 6 * (c + 1) implies #[trigger] input@[k] == perceived(
                    self.agents@,
                    self.grid@,
                    self.foods@,
                    me as int,
                    k,
                ) by {
                    if k < 6 * c {
                        assert(input@[k] == seen[k]);
                    } else {
                        assert(k / 6 == c);
                        assert(nx == field_x(cx as int, k / 6));
                        assert(ny == field_y(cy as int, k / 6));
                    }
                }
            }
            c += 1;
        }
        input
    }
}

} // verus!
