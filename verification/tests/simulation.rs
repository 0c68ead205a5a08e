use spikenet::cell::{Cell, W_SUM};
use spikenet::fixed::SCALE;
use spikenet::network::Network;
use spikenet::neuron::Neuron;
use spikenet::IMAGE_SIZE;

const DT: i64 = 500_000_000; // 0.5 ms

fn saturated_image() -> Vec<u8> {
    vec![255u8; IMAGE_SIZE]
}

fn blank_image() -> Vec<u8> {
    vec![0u8; IMAGE_SIZE]
}

#[test]
fn blank_zero_intensity_is_silent_in_inference() {
    let mut net = Network::new(3, 7);
    let blank = blank_image();
    for _ in 0..200 {
        let (exc, inh) = net.step(true, DT, &blank, 0);
        assert_eq!(exc, 0);
        assert_eq!(inh, 0);
    }
}

#[test]
fn blank_zero_intensity_is_silent_in_learning() {
    let mut net = Network::new(3, 7);
    let blank = blank_image();
    for _ in 0..200 {
        let (exc, inh) = net.step(false, DT, &blank, 0);
        assert_eq!(exc, 0);
        assert_eq!(inh, 0);
    }
}

#[test]
fn exact_membrane_relaxation_step() {
    // One quiet 0.5 ms step of a fresh excitatory neuron, computed by
    // hand: the potential starts 40 mV below rest and relaxes toward rest
    // by the factor exp(-0.005) = 0.995012480 of the fixed-point grid, so
    // v = -65 - 40 * 0.995012480 = -104.800499200 mV.
    let mut n = Neuron::new(true);
    n.step(true, DT, 0, 0);
    assert_eq!(n.v, -104_800_499_200);
    assert!(!n.s);
    assert_eq!(n.g_e, 0);
    assert_eq!(n.g_i, 0);
}

#[test]
fn refractory_neuron_does_not_spike() {
    // A cell with saturated weights and a fully active input spikes at
    // once; its refractory period (5 ms = 10 steps) then blocks every
    // further spike however high the membrane potential is driven.
    let mut cell = Cell::from_weights(vec![SCALE; IMAGE_SIZE]);
    let input = vec![true; IMAGE_SIZE];
    let x_pre = vec![0i64; IMAGE_SIZE];
    let mut first_spike = None;
    for step in 0..20 {
        let (exc, _) = cell.step(DT, true, 0, &input, &x_pre);
        if exc {
            first_spike = Some(step);
            break;
        }
    }
    let first = first_spike.expect("a saturated cell must spike quickly");
    assert!(first <= 5);
    // 5 ms of refractory time spans the next 9 full steps of 0.5 ms.
    for _ in 0..9 {
        let (exc, _) = cell.step(DT, true, 0, &input, &x_pre);
        assert!(!exc);
    }
}

#[test]
fn same_seed_same_run() {
    let image = saturated_image();
    let mut a = Network::new(5, 42);
    let mut b = Network::new(5, 42);
    for _ in 0..80 {
        let ra = a.step(false, DT, &image, 2);
        let rb = b.step(false, DT, &image, 2);
        assert_eq!(ra, rb);
    }
    assert_eq!(a.get_weights(), b.get_weights());
}

#[test]
fn different_seeds_diverge() {
    // Not a law, only a sanity check that the seed matters: two long
    // learning runs from different seeds almost surely part ways.
    let image = saturated_image();
    let mut a = Network::new(5, 1);
    let mut b = Network::new(5, 2);
    let mut same = true;
    for _ in 0..80 {
        let ra = a.step(false, DT, &image, 2);
        let rb = b.step(false, DT, &image, 2);
        if ra != rb {
            same = false;
        }
    }
    assert!(!same || a.get_weights() != b.get_weights());
}

#[test]
fn inference_leaves_weights_unchanged() {
    let mut net = Network::new(4, 9);
    let before = net.get_weights();
    let image = saturated_image();
    for _ in 0..100 {
        net.step(true, DT, &image, 3);
    }
    assert_eq!(net.get_weights(), before);
}

#[test]
fn learning_keeps_weight_totals_at_target() {
    let mut net = Network::new(4, 9);
    let image = saturated_image();
    for _ in 0..50 {
        net.step(false, DT, &image, 4);
        for row in net.get_weights() {
            let sum: i64 = row.iter().sum();
            assert!(W_SUM - (IMAGE_SIZE as i64) < sum && sum <= W_SUM);
        }
    }
}

#[test]
fn weights_stay_at_most_one() {
    let mut net = Network::new(4, 21);
    let image = saturated_image();
    for _ in 0..50 {
        net.step(false, DT, &image, 4);
        for row in net.get_weights() {
            for w in row {
                assert!(w <= SCALE);
            }
        }
    }
}

#[test]
fn saturated_single_cell_reaches_training_threshold() {
    // The training driver's success threshold: a single cell holding a
    // uniform weight vector (target total spread over every synapse),
    // shown a fully saturated image at intensity 8 for 350 ms, must spike
    // at least 5 times.
    let uniform = W_SUM / (IMAGE_SIZE as i64);
    let mut net = Network::from_weights(vec![vec![uniform; IMAGE_SIZE]], 3).unwrap();
    let image = saturated_image();
    let mut total = 0usize;
    for _ in 0..700 {
        let (exc, _) = net.step(false, DT, &image, 8);
        total += exc;
    }
    assert!(total >= 5, "only {total} spikes in 700 steps");
}

#[test]
fn explicit_input_drives_the_sequential_core() {
    // Feeding the deterministic core an explicit all-active input vector
    // must make a uniform cell fire, and learning must keep the weight
    // total at the target; two networks given the same explicit inputs
    // stay exactly in step.
    let uniform = W_SUM / (IMAGE_SIZE as i64);
    let mut a = Network::from_weights(vec![vec![uniform; IMAGE_SIZE]], 0).unwrap();
    let mut b = Network::from_weights(vec![vec![uniform; IMAGE_SIZE]], 1).unwrap();
    let active = vec![true; IMAGE_SIZE];
    let mut total = 0usize;
    for _ in 0..40 {
        let ra = a.step_with_input(false, DT, &active);
        let rb = b.step_with_input(false, DT, &active);
        assert_eq!(ra, rb);
        total += ra.0;
    }
    assert!(total >= 1);
    assert_eq!(a.get_weights(), b.get_weights());
    let sum: i64 = a.get_weights()[0].iter().sum();
    assert!(W_SUM - (IMAGE_SIZE as i64) < sum && sum <= W_SUM);
}

#[test]
fn replicate_is_independent() {
    let mut net = Network::new(3, 5);
    let image = saturated_image();
    for _ in 0..20 {
        net.step(false, DT, &image, 2);
    }
    let frozen = net.get_weights();
    let mut copy = net.replicate(99);
    for _ in 0..50 {
        copy.step(true, DT, &image, 1);
    }
    // The copy ran in inference mode: its weights are the originals, and
    // the original network is untouched by the copy's run.
    assert_eq!(copy.get_weights(), frozen);
    assert_eq!(net.get_weights(), frozen);
    assert_eq!(copy.fired().len(), 3);
}
