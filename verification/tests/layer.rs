use snn::errors::SNNError;
use snn::neural_layer::{has_shape, NeuralLayer};
use snn::neuron::Neuron;
use snn::spike::Spike;
use std::cell::RefCell;

// Potentials and weights in thousandths.
const UNIT: i64 = 1000;

fn lif(ts: i32, ts_1: i32, v_rest: i64, v_mem: i64, tau: i64, weights: Vec<i64>) -> i64 {
    let k = -((ts - ts_1) as f64 / (tau as f64 / UNIT as f64));
    let decayed = v_rest as f64 + (v_mem - v_rest) as f64 * libm::exp(k);
    let sum: i64 = weights.iter().sum();
    decayed.round() as i64 + sum
}

fn layer(thresholds: &[i64], intra: Vec<Vec<i64>>, input: Vec<Vec<i64>>) -> NeuralLayer {
    let mut layer = match NeuralLayer::new(thresholds.len(), intra, input) {
        Ok(layer) => layer,
        Err(e) => panic!("{:?}", e),
    };
    for (p, threshold) in thresholds.iter().enumerate() {
        assert_eq!(layer.add_neuron(Neuron::new(*threshold, 0, 0, UNIT, p as i32)), Ok(()));
    }
    layer
}

fn ones(n: usize) -> Vec<Spike> {
    (0..n).map(|s| Spike::new(1, Some(s as i32))).collect()
}

fn zeros(n: usize) -> Vec<Spike> {
    (0..n).map(|s| Spike::new(0, Some(s as i32))).collect()
}

fn values(batch: &[Spike]) -> Vec<i8> {
    batch.iter().map(|s| s.output).collect()
}

#[test]
fn has_shape_checks_rows_and_columns() {
    assert!(has_shape(&vec![vec![1, 2], vec![3, 4], vec![5, 6]], 3, 2));
    assert!(!has_shape(&vec![vec![1, 2], vec![3, 4], vec![5, 6]], 2, 3));
    assert!(!has_shape(&vec![vec![1, 2], vec![3]], 2, 2));
    assert!(has_shape(&vec![], 0, 5));
    assert!(has_shape(&vec![vec![], vec![]], 2, 0));
}

#[test]
fn layer_new_lays_out_without_neurons() {
    let l = NeuralLayer::new(2, vec![vec![0, -1], vec![-1, 0]], vec![vec![1, 2, 3], vec![4, 5, 6]]);
    let l = match l {
        Ok(l) => l,
        Err(e) => panic!("{:?}", e),
    };
    assert_eq!(l.len(), 2);
    assert_eq!(l.n_inputs(), 3);
    assert_eq!(l.ticks(), 0);
    assert!(!l.is_complete());
    assert_eq!(l.neurons().len(), 0);
    assert_eq!(l.excitatory(), &vec![vec![1, 2, 3], vec![4, 5, 6]]);
    assert_eq!(l.inhibitory(), &vec![vec![0, -1], vec![-1, 0]]);
    assert_eq!(l.receiver(), None);
    assert_eq!(l.sender(), None);
}

#[test]
fn layer_new_refuses_matrices_that_do_not_fit() {
    // no neuron
    assert!(matches!(NeuralLayer::new(0, vec![], vec![]), Err(SNNError::ConfigError)));
    // too few rows of input weights
    assert!(matches!(
        NeuralLayer::new(2, vec![vec![0, 0], vec![0, 0]], vec![vec![1]]),
        Err(SNNError::ConfigError)
    ));
    // ragged input weights
    assert!(matches!(
        NeuralLayer::new(2, vec![vec![0, 0], vec![0, 0]], vec![vec![1, 2], vec![1]]),
        Err(SNNError::ConfigError)
    ));
    // inhibitory matrix not square
    assert!(matches!(
        NeuralLayer::new(2, vec![vec![0, 0], vec![0]], vec![vec![1], vec![1]]),
        Err(SNNError::ConfigError)
    ));
    assert!(matches!(
        NeuralLayer::new(2, vec![vec![0, 0]], vec![vec![1], vec![1]]),
        Err(SNNError::ConfigError)
    ));
    assert!(matches!(
        NeuralLayer::new(1, vec![vec![0, 0]], vec![vec![1]]),
        Err(SNNError::ConfigError)
    ));
}

#[test]
fn add_neuron_wants_the_next_position() {
    let mut l = NeuralLayer::new(2, vec![vec![0, 0], vec![0, 0]], vec![vec![1], vec![1]]).unwrap();
    assert_eq!(l.add_neuron(Neuron::new(UNIT, 0, 0, UNIT, 1)), Err(SNNError::IndexOutOfRange));
    assert_eq!(l.add_neuron(Neuron::new(UNIT, 0, 0, UNIT, -1)), Err(SNNError::IndexOutOfRange));
    assert_eq!(l.add_neuron(Neuron::new(UNIT, 0, 0, UNIT, 0)), Ok(()));
    assert_eq!(l.add_neuron(Neuron::new(UNIT, 0, 0, UNIT, 0)), Err(SNNError::IndexOutOfRange));
    assert!(!l.is_complete());
    assert_eq!(l.add_neuron(Neuron::new(UNIT, 0, 0, UNIT, 1)), Ok(()));
    assert!(l.is_complete());
    assert_eq!(l.add_neuron(Neuron::new(UNIT, 0, 0, UNIT, 2)), Err(SNNError::IndexOutOfRange));
    assert_eq!(l.neurons().len(), 2);
    assert_eq!(l.last_output(), &zeros(2));
}

#[test]
fn add_neuron_wants_the_clock_of_the_layer() {
    let mut l = NeuralLayer::new(1, vec![vec![0]], vec![vec![1]]).unwrap();
    let mut used = Neuron::new(UNIT, 0, 0, UNIT, 0);
    let _ = used.run(vec![], &lif);
    assert_eq!(l.add_neuron(used), Err(SNNError::ConfigError));
    assert_eq!(l.neurons().len(), 0);
}

#[test]
fn add_synapse_sets_one_weight() {
    let mut l = layer(&[UNIT, UNIT], vec![vec![0, 0], vec![0, 0]], vec![vec![0, 0, 0], vec![0, 0, 0]]);
    assert_eq!(l.add_synapse(1, 2, 700, false), Ok(()));
    assert_eq!(l.add_synapse(0, 1, -300, true), Ok(()));
    assert_eq!(l.excitatory(), &vec![vec![0, 0, 0], vec![0, 0, 700]]);
    assert_eq!(l.inhibitory(), &vec![vec![0, -300], vec![0, 0]]);
    assert_eq!(l.add_synapse(1, 2, 0, false), Ok(()));
    assert_eq!(l.excitatory(), &vec![vec![0, 0, 0], vec![0, 0, 0]]);
}

#[test]
fn add_synapse_beyond_the_layer_is_out_of_range() {
    let mut l = layer(&[UNIT, UNIT], vec![vec![0, 0], vec![0, 0]], vec![vec![0, 0, 0], vec![0, 0, 0]]);
    assert_eq!(l.add_synapse(2, 0, 1, false), Err(SNNError::IndexOutOfRange));
    assert_eq!(l.add_synapse(0, 3, 1, false), Err(SNNError::IndexOutOfRange));
    assert_eq!(l.add_synapse(0, 2, 1, true), Err(SNNError::IndexOutOfRange));
    assert_eq!(l.add_synapse(2, 0, 1, true), Err(SNNError::IndexOutOfRange));
    assert_eq!(l.add_synapse(0, 2, 1, false), Ok(()));
    assert_eq!(l.excitatory(), &vec![vec![0, 0, 1], vec![0, 0, 0]]);
    assert_eq!(l.inhibitory(), &vec![vec![0, 0], vec![0, 0]]);
}

#[test]
fn layer_is_wired_once_all_four_are_attached() {
    let mut l = layer(&[UNIT], vec![vec![0]], vec![vec![1]]);
    assert_eq!(l.check_wired(), Err(SNNError::Unwired));
    l.add_receiver(0);
    assert_eq!(l.check_wired(), Err(SNNError::Unwired));
    l.add_sender(1);
    assert_eq!(l.check_wired(), Err(SNNError::Unwired));
    l.set_barrier(0, true);
    assert_eq!(l.check_wired(), Err(SNNError::Unwired));
    l.set_barrier(1, false);
    assert_eq!(l.check_wired(), Ok(()));
    assert_eq!(l.receiver(), Some(0));
    assert_eq!(l.sender(), Some(1));
}

#[test]
fn layer_barrier_of_another_link_does_not_count() {
    let mut l = layer(&[UNIT], vec![vec![0]], vec![vec![1]]);
    l.add_receiver(0);
    l.add_sender(1);
    l.set_barrier(5, true);
    l.set_barrier(1, false);
    assert_eq!(l.check_wired(), Err(SNNError::Unwired));
}

#[test]
fn layer_accepts_only_batches_that_fit() {
    let l = layer(&[UNIT], vec![vec![0]], vec![vec![1, 1]]);
    assert!(l.accepts(&ones(2)));
    assert!(!l.accepts(&ones(1)));
    assert!(!l.accepts(&ones(3)));
    assert!(!l.accepts(&vec![Spike::new(1, None), Spike::new(2, None)]));
    let incomplete = NeuralLayer::new(1, vec![vec![0]], vec![vec![1, 1]]).unwrap();
    assert!(!incomplete.accepts(&ones(2)));
}

#[test]
fn single_neuron_follows_its_input() {
    // threshold 1.0, rest 0.0, reset 0.0, tau 1.0, one excitatory weight 2.0
    let mut l = layer(&[UNIT], vec![vec![0]], vec![vec![2 * UNIT]]);
    let mut seen = Vec::new();
    for value in [1i8, 0, 1] {
        let out = l.run_neurons(&vec![Spike::new(value, Some(0))], &lif);
        assert_eq!(out.len(), 1);
        assert_eq!(out[0].n_neuron, Some(0));
        seen.push(out[0].output);
    }
    assert_eq!(seen, vec![1, 0, 1]);
    assert_eq!(l.ticks(), 3);
    assert_eq!(l.neurons()[0].local_tick(), 3);
    assert_eq!(l.neurons()[0].last_fire_tick(), 3);
    assert_eq!(l.neurons()[0].v_mem(), 0);
}

#[test]
fn silence_in_silence_out() {
    let mut l = layer(
        &[UNIT, UNIT / 2, 1],
        vec![vec![0, -5 * UNIT, 3 * UNIT], vec![9 * UNIT, 0, 9 * UNIT], vec![UNIT, UNIT, 0]],
        vec![vec![2 * UNIT, 7 * UNIT], vec![0, 0], vec![5 * UNIT, 0]],
    );
    for _ in 0..10 {
        let out = l.run_neurons(&zeros(2), &lif);
        assert_eq!(values(&out), vec![0, 0, 0]);
    }
    assert_eq!(l.ticks(), 10);
}

#[test]
fn silence_does_not_last_at_rest_above_the_threshold() {
    // Resting above the threshold, a connected neuron decays towards rest
    // and fires without any spike coming in.
    let mut l = NeuralLayer::new(1, vec![vec![0]], vec![vec![UNIT]]).unwrap();
    assert_eq!(l.add_neuron(Neuron::new(UNIT, 2 * UNIT, 0, UNIT, 0)), Ok(()));
    let out = l.run_neurons(&zeros(1), &lif);
    assert_eq!(values(&out), vec![1]);
    assert_eq!(l.neurons()[0].v_mem(), 0);
}

#[test]
fn silent_batch_lets_the_membrane_decay() {
    let mut l = layer(&[UNIT], vec![vec![0]], vec![vec![UNIT / 2]]);
    let _ = l.run_neurons(&ones(1), &lif);
    assert_eq!(l.neurons()[0].v_mem(), 500);
    // 0.5 * exp(-2), then that times exp(-3)
    assert_eq!(values(&l.run_neurons(&zeros(1), &lif)), vec![0]);
    assert_eq!(l.neurons()[0].v_mem(), 68);
    assert_eq!(values(&l.run_neurons(&zeros(1), &lif)), vec![0]);
    assert_eq!(l.neurons()[0].v_mem(), 3);
}

#[test]
fn clocks_of_a_layer_move_together() {
    let mut l = layer(
        &[UNIT, 5 * UNIT, UNIT],
        vec![vec![0, 0, 0], vec![-UNIT, 0, 0], vec![0, 0, 0]],
        vec![vec![2 * UNIT, 0], vec![UNIT, UNIT], vec![0, 0]],
    );
    for pushed in 1..=12 {
        let batch = vec![Spike::new((pushed % 2) as i8, Some(0)), Spike::new(1, Some(1))];
        let out = l.run_neurons(&batch, &lif);
        assert_eq!(out.len(), 3);
        assert_eq!(l.ticks(), pushed);
        for neuron in l.neurons() {
            assert_eq!(neuron.local_tick(), pushed);
        }
    }
}

#[test]
fn neuron_without_connection_is_never_evaluated() {
    let calls = RefCell::new(0);
    let model = |_: i32, _: i32, _: i64, _: i64, _: i64, _: Vec<i64>| -> i64 {
        *calls.borrow_mut() += 1;
        i64::MAX
    };
    let mut l = layer(&[UNIT, UNIT], vec![vec![0, 0], vec![0, 0]], vec![vec![0, 0], vec![0, UNIT]]);
    let out = l.run_neurons(&ones(2), &model);
    assert_eq!(values(&out), vec![0, 1]);
    assert_eq!(*calls.borrow(), 1);
    assert_eq!(l.neurons()[0].local_tick(), 1);
    assert_eq!(l.neurons()[0].v_mem(), 0);
}

#[test]
fn contributions_come_in_order_without_the_zero_weights() {
    let seen: RefCell<Vec<Vec<i64>>> = RefCell::new(Vec::new());
    let model = |_: i32, _: i32, _: i64, _: i64, _: i64, w: Vec<i64>| -> i64 {
        seen.borrow_mut().push(w);
        0
    };
    let mut l = layer(
        &[UNIT, UNIT],
        vec![vec![11, 12], vec![21, 22]],
        vec![vec![2, 0, 3], vec![0, 5, 0]],
    );
    let batch = vec![Spike::new(1, Some(0)), Spike::new(1, Some(1)), Spike::new(0, Some(2))];
    let _ = l.run_neurons(&batch, &model);
    // the own last output is left out, and the last output is all zero
    assert_eq!(*seen.borrow(), vec![vec![2, 0, 0], vec![5, 0]]);
}

#[test]
fn recurrent_weights_read_the_tick_before() {
    let seen: RefCell<Vec<Vec<i64>>> = RefCell::new(Vec::new());
    let model = |_: i32, _: i32, _: i64, _: i64, _: i64, w: Vec<i64>| -> i64 {
        seen.borrow_mut().push(w);
        // neuron 0 fires, neuron 1 does not
        0
    };
    let mut l = NeuralLayer::new(2, vec![vec![0, -7], vec![-9, 0]], vec![vec![4], vec![4]]).unwrap();
    assert_eq!(l.add_neuron(Neuron::new(-1, 0, 0, UNIT, 0)), Ok(()));
    assert_eq!(l.add_neuron(Neuron::new(1, 0, 0, UNIT, 1)), Ok(()));
    let first = l.run_neurons(&ones(1), &model);
    assert_eq!(values(&first), vec![1, 0]);
    let _ = l.run_neurons(&ones(1), &model);
    assert_eq!(
        *seen.borrow(),
        vec![vec![4, 0], vec![4, 0], vec![4, 0], vec![4, -9]]
    );
    assert_eq!(l.last_output().len(), 2);
}

#[test]
fn self_inhibition_is_a_flag() {
    let seen: RefCell<Vec<Vec<i64>>> = RefCell::new(Vec::new());
    let model = |_: i32, _: i32, _: i64, _: i64, _: i64, w: Vec<i64>| -> i64 {
        seen.borrow_mut().push(w);
        10
    };
    let mut l = layer(&[5], vec![vec![-3]], vec![vec![1]]);
    let _ = l.run_neurons(&ones(1), &model);
    let _ = l.run_neurons(&ones(1), &model);
    l.set_self_inhibition(true);
    let _ = l.run_neurons(&ones(1), &model);
    assert_eq!(*seen.borrow(), vec![vec![1], vec![1], vec![1, -3]]);
}

#[test]
fn inhibited_neuron_never_fires_with_the_other() {
    // Two neurons that inhibit each other with -5.0 and receive the same
    // excitatory input 2.0 at every tick. The first has the lower threshold.
    let mut l = layer(
        &[UNIT, 3 * UNIT],
        vec![vec![0, -5 * UNIT], vec![-5 * UNIT, 0]],
        vec![vec![2 * UNIT], vec![2 * UNIT]],
    );
    let mut fired = [0, 0];
    for _ in 0..50 {
        let out = l.run_neurons(&ones(1), &lif);
        assert!(!(out[0].output == 1 && out[1].output == 1));
        fired[0] += out[0].output as i32;
        fired[1] += out[1].output as i32;
    }
    assert_eq!(fired, [50, 0]);
}

#[test]
fn equal_neurons_are_inhibited_one_tick_late() {
    // With equal thresholds nothing tells the two neurons apart. Both fire
    // at the first tick, when there is no last output yet, and both are
    // held down at the next by what the other emitted.
    let mut l = layer(
        &[UNIT, UNIT],
        vec![vec![0, -5 * UNIT], vec![-5 * UNIT, 0]],
        vec![vec![2 * UNIT], vec![2 * UNIT]],
    );
    assert_eq!(values(&l.run_neurons(&ones(1), &lif)), vec![1, 1]);
    assert_eq!(values(&l.run_neurons(&ones(1), &lif)), vec![0, 0]);
    assert_eq!(l.neurons()[0].v_mem(), -3 * UNIT);
    assert_eq!(values(&l.run_neurons(&ones(1), &lif)), vec![1, 1]);
}

#[test]
fn membrane_decays_towards_rest() {
    // 0.5 at tick 1, then 0.5 * exp(-2) + 0.5 at tick 2: 0.568
    let mut l = layer(&[UNIT], vec![vec![0]], vec![vec![UNIT / 2]]);
    let _ = l.run_neurons(&ones(1), &lif);
    assert_eq!(l.neurons()[0].v_mem(), 500);
    let out = l.run_neurons(&ones(1), &lif);
    assert_eq!(values(&out), vec![0]);
    assert_eq!(l.neurons()[0].v_mem(), 568);
    assert_eq!(l.neurons()[0].last_fire_tick(), 0);
}
