use alife_sim::agent::Action;
use alife_sim::brain::Brain;
use alife_sim::scalar::{ONE_BITS, ZERO_BITS};
use alife_sim::world::{
    Position, World, ATTACK_AMOUNT, HEAL_AMOUNT, HEIGHT, WIDTH,
};

fn brain() -> Brain {
    Brain::new(vec![1, 2, 3], vec![4], vec![5], vec![6])
}

fn at(x: usize, y: usize) -> Position {
    Position { x, y }
}

/// Places an agent and sets its energy and body size; returns its identifier.
fn settle(world: &mut World, x: usize, y: usize, energy: u32, max_energy: u32) -> usize {
    let id = world.next_id;
    assert!(world.add_new_agent(at(x, y), brain(), [0, 0, 0]).is_some());
    let i = world.find(id).unwrap();
    world.agents[i].energy = energy;
    world.agents[i].max_energy = max_energy;
    id
}

fn energy(world: &World, id: usize) -> u32 {
    world.agents[world.find(id).unwrap()].energy
}

/// Checks the grid against the agents in both directions, and the energy bound.
fn assert_consistent(world: &World) {
    assert_eq!(world.grid.len(), HEIGHT);
    assert_eq!(world.foods.len(), HEIGHT);
    for a in &world.agents {
        assert_eq!(world.grid[a.pos.y][a.pos.x], Some(a.id));
        assert!(a.energy <= a.max_energy.max(70));
        assert!(a.generation >= 1);
        assert!(a.max_energy >= 10 && a.max_energy <= 500);
        assert!(a.id < world.next_id);
    }
    let mut occupied = 0;
    for y in 0..HEIGHT {
        assert_eq!(world.grid[y].len(), WIDTH);
        for x in 0..WIDTH {
            if let Some(id) = world.grid[y][x] {
                occupied += 1;
                let i = world.find(id).unwrap();
                assert_eq!(world.agents[i].pos, at(x, y));
            }
        }
    }
    assert_eq!(occupied, world.agents.len());
    for pair in world.agents.windows(2) {
        assert!(pair[0].id < pair[1].id);
    }
}

#[test]
fn new_world_is_empty() {
    let world = World::new(42);
    assert_eq!(world.step, 0);
    assert_eq!(world.next_id, 0);
    assert!(world.agents.is_empty());
    assert_eq!(world.food_count(), 0);
    for y in 0..HEIGHT {
        for x in 0..WIDTH {
            assert!(world.is_vacant(at(x, y)));
            assert!(!world.has_food(at(x, y)));
        }
    }
    assert_consistent(&world);
}

#[test]
fn placement_registers_agent_on_grid() {
    let mut world = World::new(1);
    assert_eq!(world.add_new_agent(at(3, 4), brain(), [7, 8, 9]), Some(()));
    assert_eq!(world.agents.len(), 1);
    let a = &world.agents[0];
    assert_eq!(a.id, 0);
    assert_eq!(a.pos, at(3, 4));
    assert_eq!(a.energy, 50);
    assert_eq!(a.max_energy, 100);
    assert_eq!(a.generation, 1);
    assert_eq!(a.age, 0);
    assert_eq!(a.color, [7, 8, 9]);
    assert_eq!(a.brain, brain());
    assert_eq!(a.last_action, None);
    assert!(a.lifespan >= 500 && a.lifespan < 700);
    assert_eq!(world.grid[4][3], Some(0));
    assert_eq!(world.next_id, 1);
    assert!(!world.is_vacant(at(3, 4)));
    assert_consistent(&world);
}

#[test]
fn placement_on_occupied_cell_is_refused() {
    let mut world = World::new(1);
    assert!(world.add_new_agent(at(3, 4), brain(), [0, 0, 0]).is_some());
    let before = world.agents.clone();
    assert_eq!(world.add_new_agent(at(3, 4), brain(), [1, 1, 1]), None);
    assert_eq!(world.agents, before);
    assert_eq!(world.next_id, 1);
    assert_eq!(world.grid[4][3], Some(0));
    assert_consistent(&world);
}

#[test]
fn lifespans_are_drawn_from_the_range() {
    let mut world = World::new(9);
    for x in 0..40 {
        assert!(world.add_new_agent(at(x, 0), brain(), [0, 0, 0]).is_some());
    }
    assert!(world.agents.iter().all(|a| a.lifespan >= 500 && a.lifespan < 700));
    let first = world.agents[0].lifespan;
    assert!(world.agents.iter().any(|a| a.lifespan != first));
}

#[test]
fn cull_removes_agents_without_energy() {
    let mut world = World::new(2);
    let a = settle(&mut world, 1, 1, 0, 100);
    let b = settle(&mut world, 2, 1, 5, 100);
    let c = settle(&mut world, 3, 1, 0, 100);
    let d = settle(&mut world, 4, 1, 1, 100);
    world.begin_step();
    assert_eq!(world.step, 1);
    assert_eq!(world.find(a), None);
    assert_eq!(world.find(c), None);
    assert_eq!(world.agents.iter().map(|x| x.id).collect::<Vec<_>>(), vec![b, d]);
    assert_eq!(world.grid[1][1], None);
    assert_eq!(world.grid[1][2], Some(b));
    assert_eq!(world.grid[1][3], None);
    assert_eq!(world.grid[1][4], Some(d));
    assert_consistent(&world);
}

#[test]
fn identifiers_are_never_reused() {
    let mut world = World::new(2);
    let a = settle(&mut world, 1, 1, 0, 100);
    world.begin_step();
    assert_eq!(world.find(a), None);
    let b = settle(&mut world, 1, 1, 50, 100);
    assert_eq!(a, 0);
    assert_eq!(b, 1);
    assert_eq!(world.next_id, 2);
}

#[test]
fn heal_costs_eleven_and_tops_up_neighbours() {
    let mut world = World::new(3);
    let healer = settle(&mut world, 25, 25, 100, 100);
    let near_full = settle(&mut world, 26, 25, 95, 100);
    let hungry = settle(&mut world, 24, 24, 50, 100);
    let far = settle(&mut world, 27, 25, 50, 100);
    let color = [ONE_BITS, ZERO_BITS, ONE_BITS];
    world.take_action(healer, Action::Heal, color);
    assert_eq!(energy(&world, healer), 89);
    assert_eq!(energy(&world, near_full), 100);
    assert_eq!(energy(&world, hungry), 58);
    assert_eq!(energy(&world, far), 50);
    let me = &world.agents[world.find(healer).unwrap()];
    assert_eq!(me.color, color);
    assert_eq!(me.last_action, Some(Action::Heal));
    assert_eq!(me.age, 1);
    assert_eq!(me.pos, at(25, 25));
    assert_consistent(&world);
}

#[test]
fn heal_with_no_neighbours_costs_the_same() {
    let mut world = World::new(3);
    let healer = settle(&mut world, 25, 25, 100, 100);
    world.take_action(healer, Action::Heal, [0, 0, 0]);
    assert_eq!(energy(&world, healer), 89);
    assert_eq!(world.agents.len(), 1);
}

#[test]
fn attack_takes_twenty_and_returns_sixteen() {
    let mut world = World::new(4);
    let attacker = settle(&mut world, 10, 10, 50, 100);
    let target = settle(&mut world, 11, 11, 50, 100);
    world.interact_area(attacker, ATTACK_AMOUNT);
    assert_eq!(energy(&world, target), 30);
    assert_eq!(energy(&world, attacker), 56);
    assert_consistent(&world);
}

#[test]
fn lifesteal_is_capped_by_body_size() {
    let mut world = World::new(4);
    let attacker = settle(&mut world, 10, 10, 100, 100);
    let target = settle(&mut world, 9, 10, 20, 100);
    world.interact_area(attacker, ATTACK_AMOUNT);
    assert_eq!(energy(&world, target), 0);
    assert_eq!(energy(&world, attacker), 100);
}

#[test]
fn attack_takes_no_more_than_the_target_has() {
    let mut world = World::new(4);
    let attacker = settle(&mut world, 10, 10, 40, 100);
    let weak = settle(&mut world, 10, 9, 7, 100);
    world.interact_area(attacker, ATTACK_AMOUNT);
    assert_eq!(energy(&world, weak), 0);
    assert_eq!(energy(&world, attacker), 35);
}

#[test]
fn attack_reaches_all_eight_neighbours_only() {
    let mut world = World::new(4);
    let attacker = settle(&mut world, 10, 10, 20, 500);
    let mut ring = Vec::new();
    for (x, y) in [(9, 9), (10, 9), (11, 9), (9, 10), (11, 10), (9, 11), (10, 11), (11, 11)] {
        ring.push(settle(&mut world, x, y, 50, 100));
    }
    let outside = settle(&mut world, 12, 10, 50, 100);
    world.interact_area(attacker, ATTACK_AMOUNT);
    for id in ring {
        assert_eq!(energy(&world, id), 30);
    }
    assert_eq!(energy(&world, outside), 50);
    assert_eq!(energy(&world, attacker), 10 + 8 * 16);
    assert_consistent(&world);
}

#[test]
fn attack_at_the_corner_stays_on_the_grid() {
    let mut world = World::new(4);
    let attacker = settle(&mut world, 0, 0, 5, 100);
    let target = settle(&mut world, 1, 1, 25, 100);
    world.take_action(attacker, Action::Attack, [0, 0, 0]);
    assert_eq!(energy(&world, target), 5);
    assert_eq!(energy(&world, attacker), 16);
}

#[test]
fn heal_amount_is_eight() {
    let mut world = World::new(4);
    let healer = settle(&mut world, 10, 10, 9, 100);
    let other = settle(&mut world, 10, 11, 10, 100);
    world.interact_area(healer, HEAL_AMOUNT as i32);
    assert_eq!(energy(&world, healer), 0);
    assert_eq!(energy(&world, other), 18);
}

#[test]
fn stay_pays_metabolism_only() {
    let mut world = World::new(5);
    let id = settle(&mut world, 5, 5, 50, 100);
    world.apply_action(id, Action::Stay, [4, 5, 6]);
    assert_eq!(energy(&world, id), 49);
    assert_eq!(world.agents[0].color, [4, 5, 6]);
    assert_eq!(world.agents[0].pos, at(5, 5));
}

#[test]
fn costs_saturate_at_zero() {
    let mut world = World::new(5);
    let id = settle(&mut world, 5, 5, 0, 100);
    world.apply_action(id, Action::Up, [0, 0, 0]);
    assert_eq!(energy(&world, id), 0);
    assert_eq!(world.agents[0].pos, at(5, 4));
    world.apply_action(id, Action::Attack, [0, 0, 0]);
    assert_eq!(energy(&world, id), 0);
}

#[test]
fn moves_follow_their_directions() {
    let mut world = World::new(5);
    let id = settle(&mut world, 5, 5, 50, 100);
    world.apply_action(id, Action::Up, [0, 0, 0]);
    assert_eq!(world.agents[0].pos, at(5, 4));
    world.apply_action(id, Action::Left, [0, 0, 0]);
    assert_eq!(world.agents[0].pos, at(4, 4));
    world.apply_action(id, Action::Down, [0, 0, 0]);
    assert_eq!(world.agents[0].pos, at(4, 5));
    world.apply_action(id, Action::Right, [0, 0, 0]);
    assert_eq!(world.agents[0].pos, at(5, 5));
    assert_eq!(energy(&world, id), 42);
    assert_eq!(world.grid[5][5], Some(id));
    assert_eq!(world.grid[4][5], None);
    assert_consistent(&world);
}

#[test]
fn move_onto_food_eats_it() {
    let mut world = World::new(5);
    let id = settle(&mut world, 5, 5, 20, 100);
    world.grow_food(at(6, 5));
    world.grow_food(at(7, 5));
    world.apply_action(id, Action::Right, [0, 0, 0]);
    assert_eq!(world.agents[0].pos, at(6, 5));
    assert_eq!(energy(&world, id), 78);
    assert!(!world.has_food(at(6, 5)));
    assert!(world.has_food(at(7, 5)));
    world.apply_action(id, Action::Right, [0, 0, 0]);
    assert_eq!(energy(&world, id), 100);
    assert_eq!(world.food_count(), 0);
    assert_consistent(&world);
}

#[test]
fn move_off_the_grid_is_cancelled_but_paid() {
    let mut world = World::new(5);
    let id = settle(&mut world, 0, 49, 50, 100);
    world.apply_action(id, Action::Left, [0, 0, 0]);
    assert_eq!(world.agents[0].pos, at(0, 49));
    assert_eq!(energy(&world, id), 48);
    world.apply_action(id, Action::Down, [0, 0, 0]);
    assert_eq!(world.agents[0].pos, at(0, 49));
    assert_eq!(energy(&world, id), 46);
    assert_consistent(&world);
}

#[test]
fn move_into_occupied_cell_is_cancelled_but_paid() {
    let mut world = World::new(5);
    let id = settle(&mut world, 5, 5, 50, 100);
    let blocker = settle(&mut world, 5, 6, 50, 100);
    world.grow_food(at(5, 6));
    world.move_agent(id, Action::Down);
    assert_eq!(world.agents[0].pos, at(5, 5));
    assert_eq!(energy(&world, id), 49);
    assert_eq!(energy(&world, blocker), 50);
    assert!(world.has_food(at(5, 6)));
    assert_consistent(&world);
}

#[test]
fn reaching_lifespan_zeroes_energy() {
    let mut world = World::new(6);
    let id = settle(&mut world, 5, 5, 80, 100);
    world.agents[0].lifespan = 2;
    world.take_action(id, Action::Stay, [0, 0, 0]);
    assert_eq!(energy(&world, id), 79);
    assert_eq!(world.agents[0].age, 1);
    world.take_action(id, Action::Stay, [0, 0, 0]);
    assert_eq!(energy(&world, id), 0);
    assert_eq!(world.agents[0].age, 2);
    assert_eq!(world.agents.len(), 1);
    world.begin_step();
    assert!(world.agents.is_empty());
    assert_eq!(world.grid[5][5], None);
}

#[test]
fn turn_of_a_missing_agent_is_skipped() {
    let mut world = World::new(6);
    let id = settle(&mut world, 5, 5, 80, 100);
    let before = world.agents.clone();
    world.take_action(id + 10, Action::Attack, [0, 0, 0]);
    assert_eq!(world.try_reproduce(id + 10), None);
    assert_eq!(world.agents, before);
}

#[test]
fn full_agent_reproduces_once() {
    let mut world = World::new(7);
    let parent = settle(&mut world, 25, 25, 100, 100);
    world.agents[0].color = [11, 12, 13];
    world.agents[0].generation = 3;
    let site = world.try_reproduce(parent).unwrap();
    assert_eq!(energy(&world, parent), 30);
    assert!(site.x.abs_diff(25) <= 1 && site.y.abs_diff(25) <= 1 && site != at(25, 25));
    assert_eq!(world.agents.len(), 1);
    let mut child_brain = brain();
    child_brain.biases_l1[0] = 99;
    world.bear_child(parent, site, child_brain.clone());
    assert_eq!(world.agents.len(), 2);
    let child = &world.agents[1];
    assert_eq!(child.id, 1);
    assert_eq!(child.pos, site);
    assert_eq!(child.energy, 70);
    assert_eq!(child.generation, 4);
    assert_eq!(child.color, [11, 12, 13]);
    assert_eq!(child.age, 0);
    assert_eq!(child.last_action, None);
    assert_eq!(child.brain, child_brain);
    assert!(child.max_energy >= 95 && child.max_energy <= 105);
    assert!(child.lifespan >= 500 && child.lifespan < 700);
    assert_eq!(world.agents[0].brain, brain());
    assert_eq!(world.grid[site.y][site.x], Some(1));
    assert_eq!(world.next_id, 2);
    assert_consistent(&world);
}

#[test]
fn reproduction_without_room_still_costs() {
    let mut world = World::new(7);
    let parent = settle(&mut world, 0, 0, 100, 100);
    settle(&mut world, 1, 0, 50, 100);
    settle(&mut world, 0, 1, 50, 100);
    settle(&mut world, 1, 1, 50, 100);
    assert_eq!(world.try_reproduce(parent), None);
    assert_eq!(energy(&world, parent), 30);
    assert_eq!(world.agents.len(), 4);
    assert_consistent(&world);
}

#[test]
fn reproduction_needs_full_energy() {
    let mut world = World::new(7);
    let parent = settle(&mut world, 5, 5, 99, 100);
    assert_eq!(world.try_reproduce(parent), None);
    assert_eq!(energy(&world, parent), 99);
}

#[test]
fn reproduction_cost_saturates() {
    let mut world = World::new(7);
    let parent = settle(&mut world, 5, 5, 50, 40);
    assert!(world.try_reproduce(parent).is_some());
    assert_eq!(energy(&world, parent), 0);
}

#[test]
fn birth_site_is_the_only_vacant_neighbour() {
    let mut world = World::new(7);
    let parent = settle(&mut world, 0, 0, 100, 100);
    settle(&mut world, 1, 0, 50, 100);
    settle(&mut world, 1, 1, 50, 100);
    assert_eq!(world.try_reproduce(parent), Some(at(0, 1)));
}

#[test]
fn birth_sites_vary_and_stay_adjacent() {
    let mut world = World::new(11);
    let parent = settle(&mut world, 25, 25, 100, 100);
    let mut seen = Vec::new();
    for _ in 0..64 {
        let i = world.find(parent).unwrap();
        world.agents[i].energy = 100;
        let site = world.try_reproduce(parent).unwrap();
        assert!(site.x.abs_diff(25) <= 1 && site.y.abs_diff(25) <= 1 && site != at(25, 25));
        if !seen.contains(&site) {
            seen.push(site);
        }
    }
    assert!(seen.len() > 1);
}

#[test]
fn body_drift_varies_within_five() {
    let mut world = World::new(13);
    let parent = settle(&mut world, 25, 25, 100, 100);
    let mut sizes = Vec::new();
    for x in 0..40 {
        world.bear_child(parent, at(x, 0), brain());
        let size = world.agents.last().unwrap().max_energy;
        assert!(size >= 95 && size <= 105);
        if !sizes.contains(&size) {
            sizes.push(size);
        }
    }
    assert!(sizes.len() > 1);
    assert_consistent(&world);
}

#[test]
fn turns_go_by_ascending_energy() {
    let mut world = World::new(8);
    let a = settle(&mut world, 1, 1, 50, 100);
    let b = settle(&mut world, 2, 1, 10, 100);
    let c = settle(&mut world, 3, 1, 50, 100);
    let d = settle(&mut world, 4, 1, 0, 100);
    let e = settle(&mut world, 5, 1, 10, 100);
    assert_eq!(world.turn_order(), vec![d, b, e, a, c]);
    assert_eq!(World::new(0).turn_order(), Vec::<usize>::new());
}

#[test]
fn seasons_set_the_budget() {
    let mut world = World::new(8);
    assert_eq!(world.spawn_budget(), 250);
    world.step = 1999;
    assert_eq!(world.spawn_budget(), 250);
    world.step = 2000;
    assert_eq!(world.spawn_budget(), 100);
    world.step = 3999;
    assert_eq!(world.spawn_budget(), 100);
    world.step = 4000;
    assert_eq!(world.spawn_budget(), 250);
    world.step = 6000;
    assert_eq!(world.spawn_budget(), 100);
}

#[test]
fn full_world_grows_no_food() {
    let mut world = World::new(8);
    for y in 0..HEIGHT {
        for x in 0..WIDTH {
            world.grow_food(at(x, y));
        }
    }
    assert_eq!(world.food_count(), 2500);
    assert_eq!(world.spawn_budget(), 0);
    for _ in 0..50 {
        assert_eq!(world.pick_food_site(), None);
    }
    world.foods[3][4] = false;
    assert_eq!(world.food_count(), 2499);
    assert_eq!(world.spawn_budget(), 250);
    assert_eq!(world.food_site(4, 3), Some(at(4, 3)));
    assert_eq!(world.food_site(4, 4), None);
}

#[test]
fn food_sites_are_on_the_grid_and_vary() {
    let mut world = World::new(8);
    let mut seen = Vec::new();
    for _ in 0..200 {
        let site = world.pick_food_site().unwrap();
        assert!(site.x < WIDTH && site.y < HEIGHT);
        if !seen.contains(&site) {
            seen.push(site);
        }
    }
    assert!(seen.len() > 20);
    assert!(seen.iter().any(|s| s.x != s.y));
    assert_eq!(world.food_count(), 0);
}

#[test]
fn grown_food_is_counted() {
    let mut world = World::new(8);
    world.grow_food(at(0, 0));
    world.grow_food(at(49, 49));
    world.grow_food(at(49, 49));
    world.grow_food(at(7, 30));
    assert_eq!(world.food_count(), 3);
    assert!(world.has_food(at(7, 30)));
    assert!(!world.has_food(at(30, 7)));
}

#[test]
fn growth_attempt_is_settled_by_the_draw() {
    let mut world = World::new(8);
    let p = 0.2f32.to_bits();
    assert!(!world.try_grow_food(at(3, 3), 0.2f32.to_bits(), p));
    assert!(!world.has_food(at(3, 3)));
    assert!(!world.try_grow_food(at(3, 3), 0.9f32.to_bits(), p));
    assert!(!world.try_grow_food(at(3, 3), 0.0f32.to_bits(), 0.0f32.to_bits()));
    assert_eq!(world.food_count(), 0);
    assert!(world.try_grow_food(at(3, 3), 0.199f32.to_bits(), p));
    assert!(world.has_food(at(3, 3)));
    assert!(world.try_grow_food(at(4, 3), 0.0f32.to_bits(), p));
    assert!(!world.try_grow_food(at(3, 3), 0.5f32.to_bits(), p));
    assert!(world.has_food(at(3, 3)));
    assert_eq!(world.food_count(), 2);
}

#[test]
fn audit_accepts_worlds_the_rules_produce() {
    let mut world = World::new(21);
    assert!(world.is_consistent());
    let a = settle(&mut world, 3, 3, 100, 100);
    let b = settle(&mut world, 4, 3, 40, 100);
    assert!(world.is_consistent());
    world.take_action(a, Action::Attack, [0, 0, 0]);
    world.take_action(b, Action::Left, [0, 0, 0]);
    world.take_action(b, Action::Up, [0, 0, 0]);
    if let Some(site) = world.try_reproduce(a) {
        world.bear_child(a, site, brain());
    }
    assert!(world.is_consistent());
    world.begin_step();
    assert!(world.is_consistent());
    assert_consistent(&world);
}

#[test]
fn audit_rejects_broken_worlds() {
    let fresh = || {
        let mut world = World::new(21);
        settle(&mut world, 3, 3, 50, 100);
        settle(&mut world, 4, 3, 50, 100);
        world
    };
    assert!(fresh().is_consistent());

    let mut world = fresh();
    world.grid[3][3] = None;
    assert!(!world.is_consistent());

    let mut world = fresh();
    world.grid[7][7] = Some(0);
    assert!(!world.is_consistent());

    let mut world = fresh();
    world.grid[7][7] = Some(9);
    assert!(!world.is_consistent());

    let mut world = fresh();
    world.agents[1].id = 0;
    assert!(!world.is_consistent());

    let mut world = fresh();
    world.agents[0].energy = 101;
    assert!(!world.is_consistent());

    let mut world = fresh();
    world.agents[0].max_energy = 501;
    assert!(!world.is_consistent());

    let mut world = fresh();
    world.agents[0].pos = at(50, 3);
    assert!(!world.is_consistent());

    let mut world = fresh();
    world.next_id = 1;
    assert!(!world.is_consistent());

    let mut world = fresh();
    world.foods.pop();
    assert!(!world.is_consistent());
    assert!(!world.is_shaped());

    let mut world = fresh();
    world.grid[0].push(None);
    assert!(!world.is_consistent());

    let mut world = fresh();
    world.agents[0].max_energy = 30;
    world.agents[0].energy = 70;
    assert!(world.is_consistent());
    world.agents[0].energy = 71;
    assert!(!world.is_consistent());

    let mut world = fresh();
    world.agents[1].generation = 0;
    assert!(!world.is_consistent());
}

fn logits_for(choice: usize, color: [f32; 3]) -> Vec<u32> {
    let mut out = vec![0.0f32; 10];
    out[choice] = 2.5;
    out[7] = color[0];
    out[8] = color[1];
    out[9] = color[2];
    out.iter().map(|v| v.to_bits()).collect()
}

#[test]
fn forced_heal_leaves_eighty_nine() {
    let mut world = World::new(3);
    let healer = settle(&mut world, 25, 25, 100, 100);
    let neighbour = settle(&mut world, 24, 25, 97, 100);
    let site = world.finish_turn(healer, &logits_for(6, [0.5, 2.0, -1.0]));
    assert_eq!(site, None);
    assert_eq!(energy(&world, healer), 89);
    assert_eq!(energy(&world, neighbour), 100);
    let me = &world.agents[0];
    assert_eq!(me.last_action, Some(Action::Heal));
    assert_eq!(me.color, [0.5f32.to_bits(), 1.0f32.to_bits(), 0.0f32.to_bits()]);
    assert_eq!(me.age, 1);
    assert_eq!(world.agents.len(), 2);
    assert_consistent(&world);
}

#[test]
fn full_agent_that_stays_asks_for_a_child() {
    let mut world = World::new(3);
    let parent = settle(&mut world, 25, 25, 50, 40);
    let site = world.finish_turn(parent, &logits_for(4, [0.0, 0.0, 0.0])).unwrap();
    assert_eq!(energy(&world, parent), 0);
    assert!(world.is_vacant(site));
    assert!(site.x.abs_diff(25) <= 1 && site.y.abs_diff(25) <= 1 && site != at(25, 25));
    world.bear_child(parent, site, brain());
    assert_eq!(world.agents.len(), 2);
    assert!(!world.is_vacant(site));
    assert_consistent(&world);
}

#[test]
fn eating_can_lead_to_reproduction_in_the_same_turn() {
    let mut world = World::new(3);
    let parent = settle(&mut world, 10, 10, 45, 100);
    world.grow_food(at(10, 9));
    let site = world.finish_turn(parent, &logits_for(0, [0.0, 0.0, 0.0]));
    assert_eq!(world.agents[0].pos, at(10, 9));
    assert!(site.is_some());
    assert_eq!(energy(&world, parent), 30);
    assert!(!world.has_food(at(10, 9)));
}

#[test]
fn finished_turn_of_a_missing_agent_changes_nothing() {
    let mut world = World::new(3);
    settle(&mut world, 10, 10, 100, 100);
    let before = world.agents.clone();
    assert_eq!(world.finish_turn(44, &logits_for(5, [0.0, 0.0, 0.0])), None);
    assert_eq!(world.agents, before);
}

#[test]
fn absorbed_share_is_four_fifths_rounded_down() {
    for damage in 1..=500u32 {
        let mut world = World::new(4);
        let attacker = settle(&mut world, 10, 10, 10, 500);
        let target = settle(&mut world, 11, 10, 500, 500);
        world.interact_area(attacker, -(damage as i32));
        assert_eq!(energy(&world, target), 500 - damage);
        assert_eq!(energy(&world, attacker), (damage as f32 * 0.8) as u32);
    }
}

#[test]
fn turn_order_lists_every_agent_once() {
    let mut world = World::new(8);
    for k in 0..30 {
        settle(&mut world, k, 2, ((k * 37) % 11) as u32, 100);
    }
    let order = world.turn_order();
    assert_eq!(order.len(), 30);
    let mut seen = order.clone();
    seen.sort();
    assert_eq!(seen, (0..30).collect::<Vec<usize>>());
    for pair in order.windows(2) {
        let a = energy(&world, pair[0]);
        let b = energy(&world, pair[1]);
        assert!(a < b || (a == b && pair[0] < pair[1]));
    }
}

#[test]
fn birth_neither_makes_nor_loses_energy() {
    for start in [70u32, 85, 100, 250, 500] {
        let mut world = World::new(17);
        let parent = settle(&mut world, 20, 20, start, start);
        let total_before: u32 = world.agents.iter().map(|a| a.energy).sum();
        let site = world.try_reproduce(parent).unwrap();
        let paid = start - energy(&world, parent);
        assert_eq!(paid, 70);
        world.bear_child(parent, site, brain());
        let child = world.agents.last().unwrap();
        assert_eq!(child.energy, paid);
        assert_eq!(child.generation, 2);
        let total_after: u32 = world.agents.iter().map(|a| a.energy).sum();
        assert_eq!(total_after, total_before);
        assert!(world.is_consistent());
    }
}

#[test]
fn cull_alone_leaves_the_step_counter() {
    let mut world = World::new(2);
    world.step = u64::MAX;
    let a = settle(&mut world, 1, 1, 0, 100);
    let b = settle(&mut world, 2, 1, 5, 100);
    world.cull();
    assert_eq!(world.step, u64::MAX);
    assert_eq!(world.find(a), None);
    assert_eq!(world.agents.iter().map(|x| x.id).collect::<Vec<_>>(), vec![b]);
    assert_eq!(world.grid[1][1], None);
    assert_eq!(world.grid[1][2], Some(b));
    assert!(world.is_consistent());
    world.cull();
    assert_eq!(world.agents.len(), 1);
}

#[test]
fn cloned_world_goes_the_same_way() {
    let mut world = World::new(5);
    settle(&mut world, 25, 25, 100, 100);
    world.grow_food(at(3, 3));
    let mut copy = world.clone();
    assert_eq!(copy.agents, world.agents);
    assert_eq!(copy.grid, world.grid);
    assert_eq!(copy.foods, world.foods);
    assert_eq!(copy.step, world.step);
    assert_eq!(copy.next_id, world.next_id);
    for _ in 0..50 {
        assert_eq!(copy.pick_food_site(), world.pick_food_site());
    }
    let i = world.find(0).unwrap();
    world.agents[i].energy = 100;
    copy.agents[i].energy = 100;
    assert_eq!(copy.try_reproduce(0), world.try_reproduce(0));
}

#[test]
fn equal_energies_take_turns_by_identifier() {
    let mut world = World::new(8);
    for k in 0..12 {
        settle(&mut world, 3 * k, 7, 50, 100);
    }
    assert_eq!(world.turn_order(), (0..12).collect::<Vec<usize>>());
    let i = world.find(7).unwrap();
    world.agents[i].energy = 49;
    let mut expected: Vec<usize> = vec![7];
    expected.extend((0..12).filter(|id| *id != 7));
    assert_eq!(world.turn_order(), expected);
    assert_eq!(world.turn_order(), world.turn_order());
}
