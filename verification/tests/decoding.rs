use alife_sim::agent::{decode_color, Action, Agent};
use alife_sim::brain::{Brain, HIDDEN_SIZE, INPUT_SIZE, OUTPUT_SIZE};
use alife_sim::scalar::{clamp_unit, scalar_is_nan, scalar_less, scalar_rank, ONE_BITS, ZERO_BITS};
use alife_sim::world::Position;

fn bits(values: &[f32]) -> Vec<u32> {
    values.iter().map(|v| v.to_bits()).collect()
}

#[test]
fn largest_logit_wins() {
    let out = bits(&[0.1, 0.2, 0.9, 0.3, 0.0, -1.0, 0.5, 0.0, 0.0, 0.0]);
    assert_eq!(Action::from_output(&out), Action::Left);
}

#[test]
fn each_index_maps_to_its_action() {
    let actions = [
        Action::Up,
        Action::Down,
        Action::Left,
        Action::Right,
        Action::Stay,
        Action::Attack,
        Action::Heal,
    ];
    for (i, expected) in actions.iter().enumerate() {
        let mut logits = vec![0.0f32; 10];
        logits[i] = 1.0;
        assert_eq!(Action::from_output(&bits(&logits)), *expected);
        assert_eq!(Action::from_index(i), *expected);
    }
    assert_eq!(Action::from_index(7), Action::Stay);
}

#[test]
fn tie_goes_to_lowest_index() {
    let out = bits(&[0.0, 0.7, 0.2, 0.7, 0.7, 0.1, 0.0, 0.0, 0.0, 0.0]);
    assert_eq!(Action::from_output(&out), Action::Down);
    let flat = bits(&[0.5; 10]);
    assert_eq!(Action::from_output(&flat), Action::Up);
}

#[test]
fn both_zeros_tie() {
    let out = bits(&[-0.0, 0.0, -0.0, 0.0, 0.0, 0.0, 0.0]);
    assert_eq!(Action::from_output(&out), Action::Up);
    let out = bits(&[-1.0, 0.0, -0.0, 0.0, 0.0, 0.0, 0.0]);
    assert_eq!(Action::from_output(&out), Action::Down);
}

#[test]
fn negative_logits_are_ordered_as_scalars() {
    let out = bits(&[-3.0, -2.0, -0.5, -7.0, -1.0, -0.75, -100.0, 9.0, 9.0, 9.0]);
    assert_eq!(Action::from_output(&out), Action::Left);
}

#[test]
fn colour_channels_are_not_logits() {
    let out = bits(&[0.0, 0.0, 0.0, 0.0, 0.0, 0.0, 0.1, 5.0, 6.0, 7.0]);
    assert_eq!(Action::from_output(&out), Action::Heal);
}

#[test]
fn empty_output_is_stay() {
    assert_eq!(Action::from_output(&[]), Action::Stay);
}

#[test]
fn nan_logit_is_stay() {
    let out = bits(&[0.9, f32::NAN, 0.1, 0.0, 0.0, 0.0, 0.0, 0.0, 0.0, 0.0]);
    assert_eq!(Action::from_output(&out), Action::Stay);
}

#[test]
fn short_output_uses_what_is_there() {
    assert_eq!(Action::from_output(&bits(&[0.1, 0.4, 0.3])), Action::Down);
}

#[test]
fn infinities_are_ordinary_logits() {
    let out = bits(&[f32::NEG_INFINITY, 1.0, f32::INFINITY, 2.0, 0.0, 0.0, 0.0]);
    assert_eq!(Action::from_output(&out), Action::Left);
}

#[test]
fn colour_is_clamped_to_unit_interval() {
    let out = bits(&[0.0, 0.0, 0.0, 0.0, 0.0, 0.0, 0.0, 1.5, -0.5, 0.25]);
    let color = decode_color(&out);
    assert_eq!(color, [1.0f32.to_bits(), 0.0f32.to_bits(), 0.25f32.to_bits()]);
}

#[test]
fn clamp_matches_scalar_clamp() {
    let samples = [
        0.0f32, -0.0, 1.0, 0.999_999_9, 1.000_000_1, 2.0, -1.0e-30, 1.0e-30, -5.0, 0.5,
        f32::INFINITY, f32::NEG_INFINITY, f32::MAX, f32::MIN, f32::MIN_POSITIVE,
    ];
    for v in samples {
        assert_eq!(clamp_unit(v.to_bits()), v.clamp(0.0, 1.0).to_bits(), "{}", v);
    }
    let nan = f32::NAN.to_bits();
    assert_eq!(clamp_unit(nan), nan);
    assert_eq!(clamp_unit(1.0f32.to_bits()), ONE_BITS);
    assert_eq!(clamp_unit((-3.0f32).to_bits()), ZERO_BITS);
}

#[test]
fn scalar_order_matches_scalars() {
    let samples = [
        0.0f32, -0.0, 1.0, -1.0, 0.2, 0.199, 1.0e-8, -1.0e-8, 3.5, -3.5, f32::INFINITY,
        f32::NEG_INFINITY, f32::NAN,
    ];
    for a in samples {
        for b in samples {
            assert_eq!(scalar_less(a.to_bits(), b.to_bits()), a < b, "{} < {}", a, b);
        }
        assert_eq!(scalar_is_nan(a.to_bits()), a.is_nan());
    }
    assert_eq!(scalar_rank((-0.0f32).to_bits()), 0);
    assert_eq!(scalar_rank(0.0f32.to_bits()), 0);
    assert_eq!(scalar_rank(1.0f32.to_bits()), 0x3F80_0000);
    assert_eq!(scalar_rank((-1.0f32).to_bits()), -0x3F80_0000);
}

fn blank_brain() -> Brain {
    Brain::new(
        vec![0; HIDDEN_SIZE * INPUT_SIZE],
        vec![0; HIDDEN_SIZE],
        vec![0; OUTPUT_SIZE * HIDDEN_SIZE],
        vec![0; OUTPUT_SIZE],
    )
}

#[test]
fn brain_shape_is_checked() {
    assert!(blank_brain().is_well_shaped());
    assert!(!Brain::new(vec![], vec![], vec![], vec![]).is_well_shaped());
    let b = Brain::new(vec![1, 2], vec![3], vec![4], vec![5, 6]);
    assert_eq!(b.weights_l1, vec![1, 2]);
    assert_eq!(b.biases_l1, vec![3]);
    assert_eq!(b.weights_l2, vec![4]);
    assert_eq!(b.biases_l2, vec![5, 6]);
    assert_eq!(INPUT_SIZE, 294);
    assert_eq!(OUTPUT_SIZE, 10);
}

#[test]
fn genesis_agent_has_fixed_start() {
    let color = [1, 2, 3];
    let a = Agent::genesis(7, Position { x: 3, y: 4 }, blank_brain(), color, 612);
    assert_eq!(a.id, 7);
    assert_eq!(a.pos, Position { x: 3, y: 4 });
    assert_eq!(a.energy, 50);
    assert_eq!(a.max_energy, 100);
    assert_eq!(a.generation, 1);
    assert_eq!(a.color, color);
    assert_eq!(a.last_action, None);
    assert_eq!(a.age, 0);
    assert_eq!(a.lifespan, 612);
    assert_eq!(a.brain, blank_brain());
}

#[test]
fn offspring_inherits_with_drift() {
    let mut parent = Agent::genesis(0, Position { x: 1, y: 1 }, blank_brain(), [9, 8, 7], 600);
    parent.generation = 4;
    parent.age = 33;
    let mut brain = blank_brain();
    brain.biases_l2[0] = 77;
    let child = parent.offspring(5, Position { x: 2, y: 1 }, brain.clone(), 3, 555);
    assert_eq!(child.id, 5);
    assert_eq!(child.pos, Position { x: 2, y: 1 });
    assert_eq!(child.energy, 70);
    assert_eq!(child.max_energy, 103);
    assert_eq!(child.generation, 5);
    assert_eq!(child.color, [9, 8, 7]);
    assert_eq!(child.age, 0);
    assert_eq!(child.lifespan, 555);
    assert_eq!(child.last_action, None);
    assert_eq!(child.brain, brain);
    assert_eq!(parent.brain, blank_brain());
}

#[test]
fn body_size_is_clamped() {
    let mut parent = Agent::genesis(0, Position { x: 1, y: 1 }, blank_brain(), [0, 0, 0], 600);
    parent.max_energy = 12;
    assert_eq!(parent.offspring(1, parent.pos, blank_brain(), -5, 500).max_energy, 10);
    assert_eq!(parent.offspring(1, parent.pos, blank_brain(), -2, 500).max_energy, 10);
    assert_eq!(parent.offspring(1, parent.pos, blank_brain(), -1, 500).max_energy, 11);
    parent.max_energy = 498;
    assert_eq!(parent.offspring(1, parent.pos, blank_brain(), 5, 500).max_energy, 500);
    assert_eq!(parent.offspring(1, parent.pos, blank_brain(), 2, 500).max_energy, 500);
    assert_eq!(parent.offspring(1, parent.pos, blank_brain(), 0, 500).max_energy, 498);
}
