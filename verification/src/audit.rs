//! A run-time audit of the world's invariant, for callers that hold a world
//! whose public fields they may have written.

use vstd::prelude::*;
use crate::agent::{MAX_BODY, MIN_BODY};
use crate::world::{on_grid, World, CHILD_INIT_ENERGY, HEIGHT, WIDTH};

verus! {

impl World {
    /// Whether grid and food mask have the fixed dimensions.
    pub fn is_shaped(&self) -> (ok: bool)
        ensures
            ok == self.shaped(),
    {
        if self.grid.len() != HEIGHT || self.foods.len() != HEIGHT {
            return false;
        }
        let mut y: usize = 0;
        while y < HEIGHT
            invariant
                0 <= y <= HEIGHT,
                self.grid@.len() == HEIGHT,
                self.foods@.len() == HEIGHT,
                forall|j: int| 0 <= j < y ==> (#[trigger] self.grid@[j])@.len() == WIDTH,
                forall|j: int| 0 <= j < y ==> (#[trigger] self.foods@[j])@.len() == WIDTH,
            decreases HEIGHT - y,
        {
            if self.grid[y].len() != WIDTH || self.foods[y].len() != WIDTH {
                return false;
            }
            y += 1;
        }
        true
    }

    /// Whether every agent is sound, the identifiers ascend, and every agent
    /// finds its identifier in the cell it stands on.
    pub fn agents_in_order(&self) -> (ok: bool)
        requires
            self.shaped(),
        ensures
            ok == (self.agents_sound() && self.ids_ascending() && self.agents_seated()),
    {
        let mut i: usize = 0;
        while i < self.agents.len()
            invariant
                0 <= i <= self.agents@.len(),
                self.shaped(),
                forall|j: int|
                    0 <= j < i ==> (#[trigger] self.agents@[j]).wf() && self.agents@[j].id
                        < self.next_id,
                forall|j: int, l: int|
                    0 <= j < l < i ==> (#[trigger] self.agents@[j]).id < (
                    #[trigger] self.agents@[l]).id,
                forall|j: int|
                    0 <= j < i ==> self.cell(
                        (#[trigger] self.agents@[j]).pos.x as int,
                        self.agents@[j].pos.y as int,
                    ) == Some(self.agents@[j].id),
            decreases self.agents@.len() - i,
        {
            let a = &self.agents[i];
            if a.pos.x >= WIDTH || a.pos.y >= HEIGHT {
                return false;
            }
            if a.max_energy < MIN_BODY || a.max_energy > MAX_BODY {
                return false;
            }
            let ceiling: u32 = if a.max_energy >= CHILD_INIT_ENERGY {
                a.max_energy
            } else {
                CHILD_INIT_ENERGY
            };
            if a.energy > ceiling || a.generation < 1 || a.id >= self.next_id {
                return false;
            }
            if i > 0 && self.agents[i - 1].id >= a.id {
                return false;
            }
            let seated: bool = match self.grid[a.pos.y][a.pos.x] {
                Some(held) => held == a.id,
                None => false,
            };
            if !seated {
                return false;
            }
            proof {
                assert forall|j: int, l: int| 0 <= j < l < i + 1 implies (
                #[trigger] self.agents@[j]).id < (#[trigger] self.agents@[l]).id by {
                    if l == i && j < i - 1 {
                        assert(self.agents@[j].id < self.agents@[i - 1].id);
                    }
                }
            }
            i += 1;
        }
        true
    }

    /// Whether every identifier stored in a cell is that of a live agent
    /// standing there.
    pub fn cells_in_order(&self) -> (ok: bool)
        requires
            self.shaped(),
            self.ids_ascending(),
        ensures
            ok == self.cells_owned(),
    {
        let mut y: usize = 0;
        while y < HEIGHT
            invariant
                0 <= y <= HEIGHT,
                self.shaped(),
                self.ids_ascending(),
                forall|cx: int, cy: int|
                    on_grid(cx, cy) && cy < y && (#[trigger] self.cell(cx, cy)).is_some()
                        ==> self.stands_at(self.cell(cx, cy).unwrap(), cx, cy),
            decreases HEIGHT - y,
        {
            let mut x: usize = 0;
            while x < WIDTH
                invariant
                    0 <= x <= WIDTH,
                    y < HEIGHT,
                    self.shaped(),
                    self.ids_ascending(),
                    forall|cx: int, cy: int|
                        on_grid(cx, cy) && (cy < y || (cy == y && cx < x)) && (
                        #[trigger] self.cell(cx, cy)).is_some() ==> self.stands_at(
                            self.cell(cx, cy).unwrap(),
                            cx,
                            cy,
                        ),
                decreases WIDTH - x,
            {
                let held: Option<usize> = self.grid[y][x];
                if held.is_some() {
                    let found = self.find(held.unwrap());
                    if found.is_none() {
                        proof {
                            assert(!self.stands_at(held.unwrap(), x as int, y as int));
                        }
                        return false;
                    }
                    let i: usize = found.unwrap();
                    if self.agents[i].pos.x != x || self.agents[i].pos.y != y {
                        proof {
                            if self.stands_at(held.unwrap(), x as int, y as int) {
                                let j = choose|j: int|
                                    0 <= j < self.agents@.len() && (#[trigger] self.agents@[j]).id
                                        == held.unwrap() && self.agents@[j].pos.x == x
                                        && self.agents@[j].pos.y == y;
                                self.lemma_index_of(j);
                            }
                        }
                        return false;
                    }
                    proof {
                        assert(self.agents@[i as int].id == held.unwrap());
                        assert(self.stands_at(held.unwrap(), x as int, y as int));
                    }
                }
                x += 1;
            }
            y += 1;
        }
        true
    }

    /// Whether the world's invariant holds.
    pub fn is_consistent(&self) -> (ok: bool)
        ensures
            ok == self.wf(),
    {
        self.is_shaped() && self.agents_in_order() && self.cells_in_order()
    }
}

} // verus!
