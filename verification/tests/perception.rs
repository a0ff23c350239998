use alife_sim::agent::Action;
use alife_sim::brain::{Brain, INPUT_SIZE};
use alife_sim::scalar::{ONE_BITS, ZERO_BITS};
use alife_sim::world::{Position, World, HEIGHT, WIDTH};

fn at(x: usize, y: usize) -> Position {
    Position { x, y }
}

fn blank() -> Brain {
    Brain::new(vec![], vec![], vec![], vec![])
}

fn cell(input: &[u32], dx: i32, dy: i32) -> [u32; 6] {
    let c = ((dy + 3) * 7 + (dx + 3)) as usize;
    let mut out = [0; 6];
    out.copy_from_slice(&input[6 * c..6 * c + 6]);
    out
}

#[test]
fn perception_has_fixed_length() {
    let mut world = World::new(1);
    assert!(world.add_new_agent(at(25, 25), blank(), [0, 0, 0]).is_some());
    let input = world.get_input(0);
    assert_eq!(input.len(), 294);
    assert_eq!(input.len(), INPUT_SIZE);
    assert!(input.iter().all(|v| *v == ZERO_BITS));
}

#[test]
fn corner_agent_sees_walls_outside_the_grid() {
    let mut world = World::new(1);
    assert!(world.add_new_agent(at(0, 0), blank(), [0, 0, 0]).is_some());
    let input = world.get_input(0);
    assert_eq!(input.len(), 294);
    for dy in -3..=3 {
        for dx in -3..=3 {
            let seen = cell(&input, dx, dy);
            if dx < 0 || dy < 0 {
                assert_eq!(seen, [ONE_BITS, 0, 0, 0, 0, 0]);
            } else {
                assert_eq!(seen, [0, 0, 0, 0, 0, 0]);
            }
        }
    }
}

#[test]
fn far_corner_agent_sees_walls_beyond_the_edge() {
    let mut world = World::new(1);
    assert!(world.add_new_agent(at(WIDTH - 1, HEIGHT - 2), blank(), [0, 0, 0]).is_some());
    let input = world.get_input(0);
    for dy in -3..=3 {
        for dx in -3..=3 {
            let wall = dx > 0 || dy > 1;
            assert_eq!(cell(&input, dx, dy)[0], if wall { ONE_BITS } else { ZERO_BITS });
        }
    }
}

#[test]
fn food_and_neighbours_are_perceived_with_their_colours() {
    let mut world = World::new(1);
    let red = [ONE_BITS, ZERO_BITS, 0x3F00_0000];
    assert!(world.add_new_agent(at(10, 10), blank(), [5, 6, 7]).is_some());
    assert!(world.add_new_agent(at(12, 9), blank(), red).is_some());
    world.grow_food(at(12, 9));
    world.grow_food(at(10, 10));
    world.grow_food(at(7, 13));
    let input = world.get_input(0);
    assert_eq!(cell(&input, 2, -1), [0, ONE_BITS, ONE_BITS, red[0], red[1], red[2]]);
    assert_eq!(cell(&input, 0, 0), [0, ONE_BITS, 0, 0, 0, 0]);
    assert_eq!(cell(&input, -3, 3), [0, ONE_BITS, 0, 0, 0, 0]);
    assert_eq!(cell(&input, 1, 0), [0, 0, 0, 0, 0, 0]);
    let other = world.get_input(1);
    assert_eq!(cell(&other, -2, 1), [0, ONE_BITS, ONE_BITS, 5, 6, 7]);
    assert_eq!(cell(&other, 0, 0), [0, ONE_BITS, 0, 0, 0, 0]);
}

/// A decision taken from the perception alone, so that two runs can be compared.
fn decide(input: &[u32], id: usize, step: u64) -> (Action, [u32; 3]) {
    let mut sum: u64 = id as u64 * 7 + step * 3;
    for (k, v) in input.iter().enumerate() {
        if *v != 0 {
            sum = sum.wrapping_mul(31).wrapping_add(k as u64);
        }
    }
    let color = [(sum % 2) as u32 * ONE_BITS, ZERO_BITS, ONE_BITS];
    (Action::from_index((sum % 7) as usize), color)
}

fn run(seed: u64, ticks: usize) -> World {
    let mut world = World::new(seed);
    for k in 0..60 {
        let pos = at((k * 7) % WIDTH, (k * 11) % HEIGHT);
        let _ = world.add_new_agent(pos, blank(), [0, 0, 0]);
    }
    for _ in 0..ticks {
        world.begin_step();
        for _ in 0..world.spawn_budget() {
            if let Some(site) = world.pick_food_site() {
                world.grow_food(site);
            }
        }
        for id in world.turn_order() {
            if world.find(id).is_none() {
                continue;
            }
            let input = world.get_input(id);
            let (action, color) = decide(&input, id, world.step);
            world.take_action(id, action, color);
            if let Some(site) = world.try_reproduce(id) {
                world.bear_child(id, site, blank());
            }
        }
        for a in &world.agents {
            assert_eq!(world.grid[a.pos.y][a.pos.x], Some(a.id));
            assert!(a.energy <= a.max_energy.max(70));
            assert!(a.generation >= 1);
        }
        let occupied: usize =
            world.grid.iter().map(|row| row.iter().filter(|c| c.is_some()).count()).sum();
        assert_eq!(occupied, world.agents.len());
    }
    world
}

#[test]
fn same_seed_gives_same_world() {
    let a = run(42, 40);
    let b = run(42, 40);
    assert_eq!(a.step, 40);
    assert_eq!(a.step, b.step);
    assert_eq!(a.agents, b.agents);
    assert_eq!(a.grid, b.grid);
    assert_eq!(a.foods, b.foods);
    assert_eq!(a.next_id, b.next_id);
    assert!(a.next_id > 60);
}

#[test]
fn different_seeds_diverge() {
    let a = run(1, 10);
    let b = run(2, 10);
    assert!(a.foods != b.foods);
}
