//! Food: how much there is, how many growth attempts a tick gets, and the
//! steps of one attempt.

use vstd::prelude::*;
use crate::dice::draw_below;
use crate::scalar::{precedes, scalar_less};
use crate::world::{
    on_grid, Position, World, FOOD_SPAWN_COUNT_SUMMER, FOOD_SPAWN_COUNT_WINTER, HEIGHT,
    MAX_FOODS, SEASON_LENGTH, WIDTH,
};

verus! {

/// How many of the first `n` cells of a row hold food.
pub open spec fn food_in_row(row: Seq<bool>, n: int) -> int
    decreases n,
{
    if n <= 0 {
        0
    } else {
        food_in_row(row, n - 1) + if row[n - 1] {
            1int
        } else {
            0int
        }
    }
}

/// How many cells of the first `n` rows hold food.
pub open spec fn food_in_rows(foods: Seq<Vec<bool>>, n: int) -> int
    decreases n,
{
    if n <= 0 {
        0
    } else {
        food_in_rows(foods, n - 1) + food_in_row(foods[n - 1]@, WIDTH as int)
    }
}

/// Whether a step falls in winter: seasons alternate, summer first.
pub open spec fn is_winter(step: u64) -> bool {
    (step / SEASON_LENGTH) % 2 == 1
}

/// The growth attempts a tick gets: none while the food cap is reached,
/// otherwise the rate of the season.
pub open spec fn budget(step: u64, food: int) -> int {
    if food >= MAX_FOODS {
        0
    } else if is_winter(step) {
        FOOD_SPAWN_COUNT_WINTER as int
    } else {
        FOOD_SPAWN_COUNT_SUMMER as int
    }
}

/// What the cell `(x, y)` offers as a site for new food: the cell itself,
/// or nothing where food is already there.
pub open spec fn offered_site(foods: Seq<Vec<bool>>, x: int, y: int) -> Option<Position> {
    if foods[y]@[x] {
        None
    } else {
        Some(Position { x: x as usize, y: y as usize })
    }
}

impl World {
    /// The number of cells that hold food.
    pub fn food_count(&self) -> (count: usize)
        requires
            self.shaped(),
        ensures
            count == food_in_rows(self.foods@, HEIGHT as int),
            count <= WIDTH * HEIGHT,
    {
        let mut count: usize = 0;
        let mut y: usize = 0;
        while y < HEIGHT
            invariant
                0 <= y <= HEIGHT,
                self.shaped(),
                count == food_in_rows(self.foods@, y as int),
                count <= y * WIDTH,
            decreases HEIGHT - y,
        {
            let mut x: usize = 0;
            let mut in_row: usize = 0;
            while x < WIDTH
                invariant
                    0 <= x <= WIDTH,
                    y < HEIGHT,
                    self.shaped(),
                    in_row == food_in_row(self.foods@[y as int]@, x as int),
                    in_row <= x,
                decreases WIDTH - x,
            {
                if self.foods[y][x] {
                    in_row += 1;
                }
                x += 1;
            }
            count += in_row;
            y += 1;
        }
        count
    }

    /// The number of growth attempts this tick gets.
    pub fn spawn_budget(&self) -> (attempts: usize)
        requires
            self.shaped(),
        ensures
            attempts == budget(self.step, food_in_rows(self.foods@, HEIGHT as int)),
    {
        if self.food_count() >= MAX_FOODS {
            0
        } else if (self.step / SEASON_LENGTH) % 2 == 1 {
            FOOD_SPAWN_COUNT_WINTER
        } else {
            FOOD_SPAWN_COUNT_SUMMER
        }
    }

    /// The cell at `(x, y)` as a site for new food: none where food is
    /// already there.
    pub fn food_site(&self, x: usize, y: usize) -> (site: Option<Position>)
        requires
            self.shaped(),
            x < WIDTH,
            y < HEIGHT,
        ensures
            site == offered_site(self.foods@, x as int, y as int),
    {
        if self.foods[y][x] {
            None
        } else {
            Some(Position { x, y })
        }
    }

    /// Draws a cell, column first, and offers it as a site for new food.
    /// Only the generator changes. The result is what some cell of the grid
    /// offers: a site is owed while no cell holds food, and none can come
    /// once every cell does.
    pub fn pick_food_site(&mut self) -> (site: Option<Position>)
        requires
            old(self).shaped(),
        ensures
            final(self).agents == old(self).agents,
            final(self).same_terrain(old(self)),
            exists|x: int, y: int|
                on_grid(x, y) && site == #[trigger] offered_site(old(self).foods@, x, y),
            site.is_some() ==> site.unwrap().in_bounds() && !old(self).food(
                site.unwrap().x as int,
                site.unwrap().y as int,
            ),
            site.is_none() ==> exists|x: int, y: int|
                on_grid(x, y) && #[trigger] old(self).food(x, y),
            (forall|x: int, y: int| on_grid(x, y) ==> !#[trigger] old(self).food(x, y))
                ==> site.is_some(),
            (forall|x: int, y: int| on_grid(x, y) ==> #[trigger] old(self).food(x, y))
                ==> site.is_none(),
    {
        let x: usize = draw_below(&mut self.rng, WIDTH);
        let y: usize = draw_below(&mut self.rng, HEIGHT);
        let site = self.food_site(x, y);
        proof {
            assert(on_grid(x as int, y as int));
            assert(site == offered_site(old(self).foods@, x as int, y as int));
            if site.is_none() {
                assert(old(self).food(x as int, y as int));
            }
        }
        site
    }

    /// Puts food on a cell.
    pub fn grow_food(&mut self, pos: Position)
        requires
            old(self).shaped(),
            pos.in_bounds(),
        ensures
            final(self).shaped(),
            final(self).food(pos.x as int, pos.y as int),
            forall|x: int, y: int|
                on_grid(x, y) && !(x == pos.x && y == pos.y) ==> #[trigger] final(self).food(x, y)
                    == old(self).food(x, y),
            final(self).agents == old(self).agents,
            final(self).grid == old(self).grid,
            final(self).step == old(self).step,
            final(self).next_id == old(self).next_id,
            final(self).rng == old(self).rng,
    {
        self.set_food(pos.x, pos.y, true);
    }

    /// Settles one growth attempt on a site: food grows exactly where the
    /// draw is below the probability, as scalars.
    pub fn try_grow_food(&mut self, site: Position, draw: u32, probability: u32) -> (grew: bool)
        requires
            old(self).shaped(),
            site.in_bounds(),
        ensures
            grew == precedes(draw, probability),
            final(self).shaped(),
            final(self).food(site.x as int, site.y as int) == (grew || old(self).food(
                site.x as int,
                site.y as int,
            )),
            forall|x: int, y: int|
                on_grid(x, y) && !(x == site.x && y == site.y) ==> #[trigger] final(self).food(x, y)
                    == old(self).food(x, y),
            final(self).agents == old(self).agents,
            final(self).grid == old(self).grid,
            final(self).step == old(self).step,
            final(self).next_id == old(self).next_id,
            final(self).rng == old(self).rng,
    {
        let grew: bool = scalar_less(draw, probability);
        if grew {
            self.set_food(site.x, site.y, true);
        }
        grew
    }
}

} // verus!
