//! Actions, and the state of one agent.

use vstd::prelude::*;
use rand::rngs::StdRng;
use crate::brain::{Brain, OUTPUT_ACTION_SIZE, OUTPUT_SIZE};
use crate::dice::{draw_closed, draw_span};
use crate::scalar::{clamp_unit, is_nan, rank, scalar_is_nan, scalar_rank, unit_clamped};
use crate::world::{
    Position, CHILD_INIT_ENERGY, INIT_ENERGY, LIFESPAN_END, LIFESPAN_START, MAX_ENERGY,
};

verus! {

/// Three colour channels, each a scalar bit pattern.
pub type Color = [u32; 3];

/// Smallest body size an agent can inherit.
pub const MIN_BODY: u32 = 10;

/// Largest body size an agent can inherit.
pub const MAX_BODY: u32 = 500;

/// How far a child's body size may drift from its parent's.
pub const BODY_DRIFT: i32 = 5;

#[derive(Debug, Clone, Copy, PartialEq, Eq, Structural)]
pub enum Action {
    Up,
    Down,
    Left,
    Right,
    Stay,
    Attack,
    Heal,
}

/// How many leading entries of an output vector are action logits.
pub open spec fn logit_count(output: Seq<u32>) -> int {
    if output.len() < OUTPUT_ACTION_SIZE {
        output.len() as int
    } else {
        OUTPUT_ACTION_SIZE as int
    }
}

/// An output with no logit, or with a NaN among its logits, decodes to no
/// particular action.
pub open spec fn degenerate(output: Seq<u32>) -> bool {
    logit_count(output) == 0 || exists|k: int|
        0 <= k < logit_count(output) && is_nan(#[trigger] output[k])
}

/// `idx` is the lowest index at which the logits reach their maximum.
pub open spec fn first_maximum(output: Seq<u32>, idx: int) -> bool {
    &&& 0 <= idx < logit_count(output)
    &&& forall|k: int|
        0 <= k < logit_count(output) ==> rank(#[trigger] output[k]) <= rank(output[idx])
    &&& forall|k: int| 0 <= k < idx ==> rank(#[trigger] output[k]) < rank(output[idx])
}

/// The logits reach their maximum first at one index only.
pub proof fn law_first_maximum_unique(output: Seq<u32>, i: int, j: int)
    requires
        first_maximum(output, i),
        first_maximum(output, j),
    ensures
        i == j,
{
    if i < j {
        assert(rank(output[i]) < rank(output[j]));
        assert(rank(output[j]) <= rank(output[i]));
    }
    if j < i {
        assert(rank(output[j]) < rank(output[i]));
        assert(rank(output[i]) <= rank(output[j]));
    }
}

/// The action an output decodes to: `Stay` for a degenerate output,
/// otherwise the action of the first maximal logit.
pub open spec fn decoded_action(output: Seq<u32>) -> Action {
    if degenerate(output) {
        Action::Stay
    } else {
        Action::of_index(choose|idx: int| first_maximum(output, idx))
    }
}

/// The colour an output decodes to: the three scalars after the logits,
/// each clamped to the unit interval.
pub open spec fn decoded_color(output: Seq<u32>) -> Seq<u32> {
    seq![
        unit_clamped(output[OUTPUT_ACTION_SIZE as int]),
        unit_clamped(output[OUTPUT_ACTION_SIZE + 1]),
        unit_clamped(output[OUTPUT_ACTION_SIZE + 2]),
    ]
}

impl Action {
    /// The action that a logit index stands for.
    pub open spec fn of_index(idx: int) -> Action {
        if idx == 0 {
            Action::Up
        } else if idx == 1 {
            Action::Down
        } else if idx == 2 {
            Action::Left
        } else if idx == 3 {
            Action::Right
        } else if idx == 5 {
            Action::Attack
        } else if idx == 6 {
            Action::Heal
        } else {
            Action::Stay
        }
    }

    /// Whether the action is one of the four moves.
    pub open spec fn is_move(self) -> bool {
        self == Action::Up || self == Action::Down || self == Action::Left || self
            == Action::Right
    }

    /// The horizontal step of a move; zero for anything else.
    pub open spec fn dx(self) -> int {
        match self {
            Action::Left => -1,
            Action::Right => 1,
            _ => 0,
        }
    }

    /// The vertical step of a move; zero for anything else.
    pub open spec fn dy(self) -> int {
        match self {
            Action::Up => -1,
            Action::Down => 1,
            _ => 0,
        }
    }

    pub fn from_index(idx: usize) -> (action: Action)
        ensures
            action == Action::of_index(idx as int),
    {
        if idx == 0 {
            Action::Up
        } else if idx == 1 {
            Action::Down
        } else if idx == 2 {
            Action::Left
        } else if idx == 3 {
            Action::Right
        } else if idx == 5 {
            Action::Attack
        } else if idx == 6 {
            Action::Heal
        } else {
            Action::Stay
        }
    }

    /// Picks the action whose logit is largest, the lowest index winning a
    /// tie. A degenerate output gives `Stay`.
    pub fn from_output(output: &[u32]) -> (action: Action)
        ensures
            action == decoded_action(output@),
            degenerate(output@) ==> action == Action::Stay,
            !degenerate(output@) ==> exists|idx: int|
                first_maximum(output@, idx) && action == Action::of_index(idx),
    {
        let n: usize = if output.len() < OUTPUT_ACTION_SIZE {
            output.len()
        } else {
            OUTPUT_ACTION_SIZE
        };
        if n == 0 {
            return Action::Stay;
        }
        let mut k: usize = 0;
        while k < n
            invariant
                0 <= k <= n,
                n == logit_count(output@),
                forall|j: int| 0 <= j < k ==> !is_nan(#[trigger] output@[j]),
            decreases n - k,
        {
            if scalar_is_nan(output[k]) {
                return Action::Stay;
            }
            k += 1;
        }
        let mut best: usize = 0;
        let mut k: usize = 1;
        while k < n
            invariant
                1 <= k <= n,
                n == logit_count(output@),
                best < k,
                forall|j: int|
                    0 <= j < k ==> rank(#[trigger] output@[j]) <= rank(output@[best as int]),
                forall|j: int|
                    0 <= j < best ==> rank(#[trigger] output@[j]) < rank(output@[best as int]),
            decreases n - k,
        {
            if scalar_rank(output[k]) > scalar_rank(output[best]) {
                best = k;
            }
            k += 1;
        }
        proof {
            assert(first_maximum(output@, best as int));
            let chosen = choose|idx: int| first_maximum(output@, idx);
            law_first_maximum_unique(output@, chosen, best as int);
        }
        Action::from_index(best)
    }
}

/// Reads the colour that follows the logits, each channel clamped to the
/// unit interval.
pub fn decode_color(output: &[u32]) -> (color: Color)
    requires
        output@.len() >= OUTPUT_SIZE,
    ensures
        color@ == decoded_color(output@),
{
    let r: u32 = clamp_unit(output[OUTPUT_ACTION_SIZE]);
    let g: u32 = clamp_unit(output[OUTPUT_ACTION_SIZE + 1]);
    let b: u32 = clamp_unit(output[OUTPUT_ACTION_SIZE + 2]);
    let color: Color = [r, g, b];
    proof {
        assert(color@ =~= decoded_color(output@));
    }
    color
}

/// The body size a child inherits: the parent's, shifted by `drift`, kept
/// within `[MIN_BODY, MAX_BODY]`.
pub open spec fn inherited_body(parent_max: u32, drift: int) -> int {
    let raw = parent_max as int + drift;
    if raw < MIN_BODY {
        MIN_BODY as int
    } else if raw > MAX_BODY {
        MAX_BODY as int
    } else {
        raw
    }
}

#[derive(Debug, Clone, PartialEq, Eq)]
pub struct Agent {
    pub id: usize,
    pub pos: Position,
    pub energy: u32,
    pub max_energy: u32,
    pub generation: u32,
    pub brain: Brain,
    pub color: Color,
    pub last_action: Option<Action>,
    pub age: u32,
    /// The age at which the agent dies.
    pub lifespan: u32,
}

impl Agent {
    /// The most energy the agent can hold: its body size, or what it was born
    /// with where its body is smaller than that.
    pub open spec fn ceiling(&self) -> u32 {
        if self.max_energy >= CHILD_INIT_ENERGY {
            self.max_energy
        } else {
            CHILD_INIT_ENERGY
        }
    }

    /// The agent stands on the grid, its body size is within the heritable
    /// range, its energy does not exceed its ceiling, and its generation
    /// counts from one.
    pub open spec fn wf(&self) -> bool {
        &&& self.pos.in_bounds()
        &&& MIN_BODY <= self.max_energy <= MAX_BODY
        &&& self.energy <= self.ceiling()
        &&& self.generation >= 1
    }

    /// A genesis agent with the given brain, colour and lifespan.
    pub fn genesis(
        id: usize,
        pos: Position,
        brain: Brain,
        color: Color,
        lifespan: u32,
    ) -> (agent: Self)
        ensures
            agent.id == id,
            agent.pos == pos,
            agent.energy == INIT_ENERGY,
            agent.max_energy == MAX_ENERGY,
            agent.generation == 1,
            agent.brain == brain,
            agent.color == color,
            agent.last_action.is_none(),
            agent.age == 0,
            agent.lifespan == lifespan,
    {
        Self {
            id,
            pos,
            energy: INIT_ENERGY,
            max_energy: MAX_ENERGY,
            generation: 1,
            brain,
            color,
            last_action: None,
            age: 0,
            lifespan,
        }
    }

    /// A genesis agent: the brain and colour are the caller's fresh draws,
    /// the lifespan is drawn here.
    pub fn new_random(
        id: usize,
        pos: Position,
        brain: Brain,
        color: Color,
        rng: &mut StdRng,
    ) -> (agent: Self)
        ensures
            agent.id == id,
            agent.pos == pos,
            agent.energy == INIT_ENERGY,
            agent.max_energy == MAX_ENERGY,
            agent.generation == 1,
            agent.brain == brain,
            agent.color == color,
            agent.last_action.is_none(),
            agent.age == 0,
            LIFESPAN_START <= agent.lifespan < LIFESPAN_END,
    {
        let lifespan: u32 = draw_span(rng, LIFESPAN_START, LIFESPAN_END);
        Agent::genesis(id, pos, brain, color, lifespan)
    }

    /// The child of `self` for a given body drift and lifespan.
    pub fn offspring(
        &self,
        new_id: usize,
        new_pos: Position,
        child_brain: Brain,
        drift: i32,
        lifespan: u32,
    ) -> (child: Self)
        requires
            self.generation < u32::MAX,
        ensures
            child.id == new_id,
            child.pos == new_pos,
            child.energy == CHILD_INIT_ENERGY,
            child.max_energy == inherited_body(self.max_energy, drift as int),
            child.generation == self.generation + 1,
            child.brain == child_brain,
            child.color == self.color,
            child.last_action.is_none(),
            child.age == 0,
            child.lifespan == lifespan,
    {
        let raw: i64 = self.max_energy as i64 + drift as i64;
        let body: u32 = if raw < MIN_BODY as i64 {
            MIN_BODY
        } else if raw > MAX_BODY as i64 {
            MAX_BODY
        } else {
            raw as u32
        };
        Self {
            id: new_id,
            pos: new_pos,
            energy: CHILD_INIT_ENERGY,
            max_energy: body,
            generation: self.generation + 1,
            brain: child_brain,
            color: self.color,
            last_action: None,
            age: 0,
            lifespan,
        }
    }

    /// The child of `self`: `child_brain` is the parent's brain after the
    /// caller's mutation; the body drift and the lifespan are drawn here, in
    /// that order.
    pub fn new_child(
        &self,
        new_id: usize,
        new_pos: Position,
        child_brain: Brain,
        rng: &mut StdRng,
    ) -> (child: Self)
        requires
            self.generation < u32::MAX,
        ensures
            child.id == new_id,
            child.pos == new_pos,
            child.energy == CHILD_INIT_ENERGY,
            exists|drift: int|
                -BODY_DRIFT <= drift <= BODY_DRIFT && child.max_energy == #[trigger] inherited_body(
                    self.max_energy,
                    drift,
                ),
            MIN_BODY <= child.max_energy <= MAX_BODY,
            child.generation == self.generation + 1,
            child.brain == child_brain,
            child.color == self.color,
            child.last_action.is_none(),
            child.age == 0,
            LIFESPAN_START <= child.lifespan < LIFESPAN_END,
    {
        let drift: i32 = draw_closed(rng, -BODY_DRIFT, BODY_DRIFT);
        let lifespan: u32 = draw_span(rng, LIFESPAN_START, LIFESPAN_END);
        let child = self.offspring(new_id, new_pos, child_brain, drift, lifespan);
        proof {
            assert(child.max_energy == inherited_body(self.max_energy, drift as int));
        }
        child
    }
}

} // verus!
