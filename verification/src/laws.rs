//! Laws of the world that follow from its invariant and from the
//! definitions of a turn.

use vstd::prelude::*;
use crate::agent::{Action, Agent, Color};
use crate::scalar::{ONE_BITS, ZERO_BITS};
use crate::schedule::acts_before;
use crate::sense::{field_x, field_y, perceived};
use crate::turn::{
    absorbed, aged, applied, free_slot, has_room, interacted, is_slot, neighbour, paid, reaped,
    reproduced, slot_of, slot_x, slot_y, spent, topped, turn_taken,
};
use crate::world::{
    adjacent, on_grid, AgentId, Position, World, ATTACK_AMOUNT, CHILD_INIT_ENERGY, HEAL_AMOUNT,
    INTERACT_COST, REPRODUCE_COST,
};

verus! {

/// In a well-formed world no agent holds more energy than its ceiling; an
/// agent whose body is at least as large as a newborn's energy holds no
/// more than its body size.
pub proof fn law_energy_bounded(w: &World, i: int)
    requires
        w.wf(),
        0 <= i < w.agents@.len(),
    ensures
        0 <= w.agents@[i].energy <= w.agents@[i].ceiling(),
        w.agents@[i].max_energy >= CHILD_INIT_ENERGY ==> w.agents@[i].energy
            <= w.agents@[i].max_energy,
{
    assert(w.agents@[i].wf());
}

/// In a well-formed world the cell under every agent stores exactly that
/// agent's identifier.
pub proof fn law_agent_is_seated(w: &World, i: int)
    requires
        w.wf(),
        0 <= i < w.agents@.len(),
    ensures
        on_grid(w.agents@[i].pos.x as int, w.agents@[i].pos.y as int),
        w.cell(w.agents@[i].pos.x as int, w.agents@[i].pos.y as int) == Some(w.agents@[i].id),
{
    assert(w.agents@[i].wf());
}

/// In a well-formed world the identifier stored in an occupied cell belongs
/// to a live agent, and that agent's position is the cell.
pub proof fn law_cell_is_owned(w: &World, x: int, y: int)
    requires
        w.wf(),
        on_grid(x, y),
        w.cell(x, y).is_some(),
    ensures
        w.has_agent(w.cell(x, y).unwrap()),
        w.agents@[w.index_of(w.cell(x, y).unwrap())].id == w.cell(x, y).unwrap(),
        w.agents@[w.index_of(w.cell(x, y).unwrap())].pos.x == x,
        w.agents@[w.index_of(w.cell(x, y).unwrap())].pos.y == y,
{
    w.lemma_occupant(x, y);
}

/// In a well-formed world no two live agents share an identifier or a cell.
pub proof fn law_agents_distinct(w: &World, i: int, j: int)
    requires
        w.wf(),
        0 <= i < w.agents@.len(),
        0 <= j < w.agents@.len(),
        i != j,
    ensures
        w.agents@[i].id != w.agents@[j].id,
        w.agents@[i].pos != w.agents@[j].pos,
{
    if w.agents@[i].pos == w.agents@[j].pos {
        w.lemma_one_per_cell(i, j);
    }
    if i < j {
        assert(w.agents@[i].id < w.agents@[j].id);
    } else {
        assert(w.agents@[j].id < w.agents@[i].id);
    }
}

/// An attack takes exactly its magnitude from every neighbour that holds at
/// least that much, and all the energy of a neighbour that holds less; an
/// agent that is not a neighbour keeps its energy.
pub proof fn law_attack_drains(w: &World, me: int, j: int)
    requires
        w.wf(),
        0 <= me < w.agents@.len(),
        0 <= j < w.agents@.len(),
        j != me,
    ensures
        ({
            let a = w.agents@[me];
            let b = w.agents@[j];
            let after = interacted(w.agents@, w.grid@, me, ATTACK_AMOUNT as int)[j];
            if adjacent(b.pos.x as int, b.pos.y as int, a.pos.x as int, a.pos.y as int) {
                after.energy == if b.energy >= 20 {
                    b.energy - 20
                } else {
                    0
                }
            } else {
                after.energy == b.energy
            }
        }),
{
}

/// A heal adds its amount to every neighbour, up to the neighbour's body
/// size, and costs the healer the interaction cost whatever the number of
/// neighbours.
pub proof fn law_heal_tops_up(w: &World, me: int, j: int)
    requires
        w.wf(),
        0 <= me < w.agents@.len(),
        0 <= j < w.agents@.len(),
        j != me,
    ensures
        ({
            let a = w.agents@[me];
            let b = w.agents@[j];
            let after = interacted(w.agents@, w.grid@, me, HEAL_AMOUNT as int);
            &&& after[me].energy == spent(a.energy, INTERACT_COST)
            &&& adjacent(b.pos.x as int, b.pos.y as int, a.pos.x as int, a.pos.y as int)
                ==> after[j].energy == topped(b.energy, HEAL_AMOUNT as int, b.max_energy)
            &&& !adjacent(b.pos.x as int, b.pos.y as int, a.pos.x as int, a.pos.y as int)
                ==> after[j].energy == b.energy
        }),
{
    lemma_heal_costs(w.agents@, w.grid@, me, 9);
}

proof fn lemma_heal_costs(
    agents: Seq<Agent>,
    grid: Seq<Vec<Option<AgentId>>>,
    me: int,
    k: int,
)
    requires
        0 <= k,
    ensures
        reaped(agents, grid, me, HEAL_AMOUNT as int, k) == spent(agents[me].energy, INTERACT_COST),
    decreases k,
{
    if k > 0 {
        lemma_heal_costs(agents, grid, me, k - 1);
    }
}

proof fn lemma_single_victim(w: &World, me: int, t: int, k: int)
    requires
        w.wf(),
        0 <= me < w.agents@.len(),
        0 <= t < w.agents@.len(),
        0 <= k <= 9,
        0 <= slot_of(
            w.agents@[me].pos.x as int,
            w.agents@[me].pos.y as int,
            w.agents@[t].pos.x as int,
            w.agents@[t].pos.y as int,
        ),
        forall|q: int|
            0 <= q < 9 ==> #[trigger] neighbour(w.agents@, w.grid@, me, q) == if q == slot_of(
                w.agents@[me].pos.x as int,
                w.agents@[me].pos.y as int,
                w.agents@[t].pos.x as int,
                w.agents@[t].pos.y as int,
            ) {
                Some(w.agents@[t].id)
            } else {
                None
            },
    ensures
        ({
            let a = w.agents@[me];
            let b = w.agents@[t];
            let after_cost = spent(a.energy, INTERACT_COST);
            reaped(w.agents@, w.grid@, me, ATTACK_AMOUNT as int, k) == if k > slot_of(
                a.pos.x as int,
                a.pos.y as int,
                b.pos.x as int,
                b.pos.y as int,
            ) {
                topped(after_cost, absorbed(b.energy, ATTACK_AMOUNT as int), a.max_energy)
            } else {
                after_cost
            }
        }),
    decreases k,
{
    if k > 0 {
        lemma_single_victim(w, me, t, k - 1);
        w.lemma_index_of(t);
        assert(neighbour(w.agents@, w.grid@, me, k - 1) == if k - 1 == slot_of(
            w.agents@[me].pos.x as int,
            w.agents@[me].pos.y as int,
            w.agents@[t].pos.x as int,
            w.agents@[t].pos.y as int,
        ) {
            Some(w.agents@[t].id)
        } else {
            None
        });
    }
}

/// Lifesteal: an attacker with a single neighbour that holds at least the
/// attack's magnitude takes exactly 20 from it and, after paying the
/// interaction cost, gains 16, or as much of that as its body size leaves
/// room for.
pub proof fn law_lifesteal(w: &World, me: int, t: int)
    requires
        w.wf(),
        0 <= me < w.agents@.len(),
        0 <= t < w.agents@.len(),
        t != me,
        adjacent(
            w.agents@[t].pos.x as int,
            w.agents@[t].pos.y as int,
            w.agents@[me].pos.x as int,
            w.agents@[me].pos.y as int,
        ),
        w.agents@[t].energy >= 20,
        forall|j: int|
            0 <= j < w.agents@.len() && j != me && j != t ==> !adjacent(
                (#[trigger] w.agents@[j]).pos.x as int,
                w.agents@[j].pos.y as int,
                w.agents@[me].pos.x as int,
                w.agents@[me].pos.y as int,
            ),
    ensures
        ({
            let a = w.agents@[me];
            let b = w.agents@[t];
            let after = interacted(w.agents@, w.grid@, me, ATTACK_AMOUNT as int);
            let after_cost = spent(a.energy, INTERACT_COST);
            let room = a.max_energy - after_cost;
            &&& after[t].energy == b.energy - 20
            &&& after[me].energy == after_cost + if room < 16 {
                room
            } else {
                16
            }
        }),
{
    let a = w.agents@[me];
    let b = w.agents@[t];
    let st = slot_of(a.pos.x as int, a.pos.y as int, b.pos.x as int, b.pos.y as int);
    assert(a.wf());
    assert(b.wf());
    assert forall|q: int| 0 <= q < 9 implies #[trigger] neighbour(w.agents@, w.grid@, me, q)
        == if q == st {
        Some(b.id)
    } else {
        None
    } by {
        let x = slot_x(a.pos.x as int, q);
        let y = slot_y(a.pos.y as int, q);
        if q == st {
            assert(x == b.pos.x && y == b.pos.y);
        } else if q != 4 && on_grid(x, y) && w.cell(x, y).is_some() {
            w.lemma_occupant(x, y);
            let j = w.index_of(w.cell(x, y).unwrap());
            assert(w.agents@[j].pos.x == x && w.agents@[j].pos.y == y);
            assert(adjacent(x, y, a.pos.x as int, a.pos.y as int));
            assert(j != me);
            assert(j == t);
        }
    }
    lemma_single_victim(w, me, t, 9);
}

/// A cell of the field of view that lies off the grid is perceived as a
/// wall and as nothing else, wherever the agent stands.
pub proof fn law_walls(w: &World, me: int, k: int)
    requires
        0 <= me < w.agents@.len(),
        0 <= k,
        !on_grid(
            field_x(w.agents@[me].pos.x as int, k / 6),
            field_y(w.agents@[me].pos.y as int, k / 6),
        ),
    ensures
        perceived(w.agents@, w.grid@, w.foods@, me, k) == if k % 6 == 0 {
            ONE_BITS
        } else {
            ZERO_BITS
        },
{
}

/// A cell of the field of view that lies on the grid is never perceived as
/// a wall, and the agent's own cell never shows an agent.
pub proof fn law_open_ground(w: &World, me: int, c: int)
    requires
        w.wf(),
        0 <= me < w.agents@.len(),
        0 <= c,
        on_grid(field_x(w.agents@[me].pos.x as int, c), field_y(w.agents@[me].pos.y as int, c)),
    ensures
        perceived(w.agents@, w.grid@, w.foods@, me, 6 * c) == ZERO_BITS,
        c == 24 ==> perceived(w.agents@, w.grid@, w.foods@, me, 6 * c + 2) == ZERO_BITS,
{
    assert((6 * c) / 6 == c && (6 * c) % 6 == 0);
    assert((6 * c + 2) / 6 == c && (6 * c + 2) % 6 == 2);
    assert(w.agents@[me].wf());
}

/// The outcome of applying an action is fixed by the world, the agent, the
/// action and the colour: two outcomes of the same turn agree on every
/// agent, every cell and every food flag.
pub proof fn law_turn_determined(
    agents: Seq<Agent>,
    grid: Seq<Vec<Option<AgentId>>>,
    foods: Seq<Vec<bool>>,
    me: int,
    action: Action,
    color: Color,
    agents_a: Seq<Agent>,
    grid_a: Seq<Vec<Option<AgentId>>>,
    foods_a: Seq<Vec<bool>>,
    agents_b: Seq<Agent>,
    grid_b: Seq<Vec<Option<AgentId>>>,
    foods_b: Seq<Vec<bool>>,
)
    requires
        applied(agents, grid, foods, me, action, color, agents_a, grid_a, foods_a),
        applied(agents, grid, foods, me, action, color, agents_b, grid_b, foods_b),
    ensures
        agents_a == agents_b,
        forall|x: int, y: int| on_grid(x, y) ==> #[trigger] grid_a[y]@[x] == grid_b[y]@[x],
        forall|x: int, y: int| on_grid(x, y) ==> #[trigger] foods_a[y]@[x] == foods_b[y]@[x],
{
}

/// An agent whose energy has reached its body size pays the reproduction
/// cost, saturating at zero, whether or not a neighbouring cell is vacant.
/// With a vacant neighbouring cell a birth site results, and it is such a
/// cell: on the grid, touching the agent, and unoccupied. Without one no
/// site results. No other agent changes.
pub proof fn law_reproduction_threshold(
    w: &World,
    me: int,
    agents_after: Seq<Agent>,
    site: Option<Position>,
)
    requires
        w.wf(),
        0 <= me < w.agents@.len(),
        w.agents@[me].energy >= w.agents@[me].max_energy,
        reproduced(w.agents@, w.grid@, me, agents_after, site),
    ensures
        agents_after.len() == w.agents@.len(),
        agents_after[me].energy == spent(w.agents@[me].energy, REPRODUCE_COST),
        forall|j: int| 0 <= j < w.agents@.len() && j != me ==> agents_after[j] == w.agents@[j],
        site.is_some() <==> has_room(w.agents@, w.grid@, me),
        site.is_some() ==> {
            let x = site.unwrap().x as int;
            let y = site.unwrap().y as int;
            &&& on_grid(x, y)
            &&& adjacent(x, y, w.agents@[me].pos.x as int, w.agents@[me].pos.y as int)
            &&& w.cell(x, y).is_none()
        },
{
    if site.is_some() {
        let k = choose|k: int|
            #[trigger] free_slot(w.agents@, w.grid@, me, k) && is_slot(
                w.agents@,
                me,
                k,
                site.unwrap(),
            );
        assert(free_slot(w.agents@, w.grid@, me, k));
    }
}

/// A birth neither makes nor loses energy: a parent that holds at least
/// the reproduction cost pays exactly the energy its child is born with.
pub proof fn law_birth_conserves_energy(parent: Agent)
    requires
        parent.energy >= REPRODUCE_COST,
    ensures
        parent.energy - paid(parent, REPRODUCE_COST).energy == CHILD_INIT_ENERGY,
{
}

/// In a well-formed world every agent's generation is at least one, so a
/// child, one generation after its parent, is of generation two or more.
pub proof fn law_generations_count_from_one(w: &World, i: int)
    requires
        w.wf(),
        0 <= i < w.agents@.len(),
    ensures
        w.agents@[i].generation >= 1,
        w.agents@[i].generation + 1 >= 2,
{
    assert(w.agents@[i].wf());
}

proof fn lemma_orders_agree(w: &World, a: Seq<AgentId>, b: Seq<AgentId>, k: int)
    requires
        w.wf(),
        w.is_turn_order(a),
        w.is_turn_order(b),
        0 <= k <= a.len(),
    ensures
        forall|j: int| 0 <= j < k ==> a[j] == b[j],
    decreases k,
{
    if k > 0 {
        lemma_orders_agree(w, a, b, k - 1);
        let m = k - 1;
        if a[m] != b[m] {
            let ia = w.index_of(a[m]);
            let ib = w.index_of(b[m]);
            assert(w.has_agent(a[m]));
            assert(w.has_agent(b[m]));
            assert(w.agents@[ia].id == a[m]);
            assert(w.agents@[ib].id == b[m]);
            assert(b.contains(w.agents@[ia].id));
            assert(a.contains(w.agents@[ib].id));
            let p = choose|p: int| 0 <= p < b.len() && b[p] == a[m];
            let q = choose|q: int| 0 <= q < a.len() && a[q] == b[m];
            if p < m {
                assert(a[p] == b[p]);
                assert(acts_before(w.agents@[w.index_of(a[p])], w.agents@[w.index_of(a[m])]));
            }
            if q < m {
                assert(a[q] == b[q]);
                assert(acts_before(w.agents@[w.index_of(b[q])], w.agents@[w.index_of(b[m])]));
            }
            if p > m && q > m {
                assert(acts_before(w.agents@[w.index_of(b[m])], w.agents@[w.index_of(b[p])]));
                assert(acts_before(w.agents@[w.index_of(a[m])], w.agents@[w.index_of(a[q])]));
            }
        }
    }
}

/// The order of the turns is fixed by the agents alone: two orders of one
/// world are the same, also where several agents hold equal energy.
pub proof fn law_turn_order_unique(w: &World, a: Seq<AgentId>, b: Seq<AgentId>)
    requires
        w.wf(),
        w.is_turn_order(a),
        w.is_turn_order(b),
    ensures
        a == b,
{
    lemma_orders_agree(w, a, b, a.len() as int);
    assert(a =~= b);
}

/// The whole of a turn is fixed by the world, the agent, the action and
/// the colour, up to the draw of the birth site: two outcomes of the same
/// turn agree on every agent, every cell and every food flag, and on
/// whether a child is due.
pub proof fn law_whole_turn_determined(
    agents: Seq<Agent>,
    grid: Seq<Vec<Option<AgentId>>>,
    foods: Seq<Vec<bool>>,
    me: int,
    action: Action,
    color: Color,
    mid_a: Seq<Agent>,
    agents_a: Seq<Agent>,
    grid_a: Seq<Vec<Option<AgentId>>>,
    foods_a: Seq<Vec<bool>>,
    site_a: Option<Position>,
    mid_b: Seq<Agent>,
    agents_b: Seq<Agent>,
    grid_b: Seq<Vec<Option<AgentId>>>,
    foods_b: Seq<Vec<bool>>,
    site_b: Option<Position>,
)
    requires
        turn_taken(
            agents,
            grid,
            foods,
            me,
            action,
            color,
            mid_a,
            agents_a,
            grid_a,
            foods_a,
            site_a,
        ),
        turn_taken(
            agents,
            grid,
            foods,
            me,
            action,
            color,
            mid_b,
            agents_b,
            grid_b,
            foods_b,
            site_b,
        ),
    ensures
        agents_a == agents_b,
        forall|x: int, y: int| on_grid(x, y) ==> #[trigger] grid_a[y]@[x] == grid_b[y]@[x],
        forall|x: int, y: int| on_grid(x, y) ==> #[trigger] foods_a[y]@[x] == foods_b[y]@[x],
        site_a.is_some() == site_b.is_some(),
{
    let base = agents.update(me, aged(agents[me], action));
    law_turn_determined(
        base,
        grid,
        foods,
        me,
        action,
        color,
        mid_a,
        grid_a,
        foods_a,
        mid_b,
        grid_b,
        foods_b,
    );
    assert(mid_a == mid_b);
    assert forall|k: int| free_slot(mid_a, grid_a, me, k) == free_slot(mid_a, grid_b, me, k) by {
        let x = slot_x(mid_a[me].pos.x as int, k);
        let y = slot_y(mid_a[me].pos.y as int, k);
        if on_grid(x, y) {
            assert(grid_a[y]@[x] == grid_b[y]@[x]);
        }
    }
    if has_room(mid_a, grid_a, me) {
        let k = choose|k: int| #[trigger] free_slot(mid_a, grid_a, me, k);
        assert(free_slot(mid_a, grid_b, me, k));
    }
    if has_room(mid_a, grid_b, me) {
        let k = choose|k: int| #[trigger] free_slot(mid_a, grid_b, me, k);
        assert(free_slot(mid_a, grid_a, me, k));
    }
}

} // verus!
