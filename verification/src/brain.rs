//! The shape of an agent's two-layer network and the container of its
//! parameters.

use vstd::prelude::*;

verus! {

/// Side length of the square field of view.
pub const INPUT_FIELD_LENGTH: usize = 7;

/// Number of cells in the field of view.
pub const INPUT_FIELD_SIZE: usize = INPUT_FIELD_LENGTH * INPUT_FIELD_LENGTH;

/// Flags per perceived cell: wall, food, other agent.
pub const INPUT_CELL_TYPE_SIZE: usize = 3;

/// Colour channels.
pub const RGB_COLOR_SIZE: usize = 3;

/// Length of a perception vector.
pub const INPUT_SIZE: usize = INPUT_FIELD_SIZE * (INPUT_CELL_TYPE_SIZE + RGB_COLOR_SIZE);

/// Width of the hidden layer.
pub const HIDDEN_SIZE: usize = 64;

/// Action logits: four moves, stay, attack, heal.
pub const OUTPUT_ACTION_SIZE: usize = 4 + 1 + 2;

/// Length of an output vector: the logits, then the colour.
pub const OUTPUT_SIZE: usize = OUTPUT_ACTION_SIZE + RGB_COLOR_SIZE;

/// The parameters of a two-layer dense network, each scalar as its bit
/// pattern, matrices in row-major order.
#[derive(Debug, Clone, PartialEq, Eq)]
pub struct Brain {
    /// `HIDDEN_SIZE` rows of `INPUT_SIZE` weights.
    pub weights_l1: Vec<u32>,
    pub biases_l1: Vec<u32>,
    /// `OUTPUT_SIZE` rows of `HIDDEN_SIZE` weights.
    pub weights_l2: Vec<u32>,
    pub biases_l2: Vec<u32>,
}

impl Brain {
    /// The four parameter blocks have the lengths the layer sizes ask for.
    pub open spec fn well_shaped(&self) -> bool {
        &&& self.weights_l1@.len() == HIDDEN_SIZE * INPUT_SIZE
        &&& self.biases_l1@.len() == HIDDEN_SIZE
        &&& self.weights_l2@.len() == OUTPUT_SIZE * HIDDEN_SIZE
        &&& self.biases_l2@.len() == OUTPUT_SIZE
    }

    pub fn new(
        weights_l1: Vec<u32>,
        biases_l1: Vec<u32>,
        weights_l2: Vec<u32>,
        biases_l2: Vec<u32>,
    ) -> (brain: Self)
        ensures
            brain.weights_l1 == weights_l1,
            brain.biases_l1 == biases_l1,
            brain.weights_l2 == weights_l2,
            brain.biases_l2 == biases_l2,
    {
        Self { weights_l1, biases_l1, weights_l2, biases_l2 }
    }

    /// Tests the shape, for callers that are about to evaluate the network.
    pub fn is_well_shaped(&self) -> (ok: bool)
        ensures
            ok == self.well_shaped(),
    {
        self.weights_l1.len() == HIDDEN_SIZE * INPUT_SIZE
            && self.biases_l1.len() == HIDDEN_SIZE
            && self.weights_l2.len() == OUTPUT_SIZE * HIDDEN_SIZE
            && self.biases_l2.len() == OUTPUT_SIZE
    }
}

} // verus!
