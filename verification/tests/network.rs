use snn::errors::SNNError;
use snn::input_layer::InputLayer;
use snn::neural_network::{check_consistent, NeuralNetwork, Topology};
use snn::output::OutputMonitor;
use snn::spike::Spike;

const UNIT: i64 = 1000;

fn lif(ts: i32, ts_1: i32, v_rest: i64, v_mem: i64, tau: i64, weights: Vec<i64>) -> i64 {
    let k = -((ts - ts_1) as f64 / (tau as f64 / UNIT as f64));
    let decayed = v_rest as f64 + (v_mem - v_rest) as f64 * libm::exp(k);
    let sum: i64 = weights.iter().sum();
    decayed.round() as i64 + sum
}

type Model = fn(i32, i32, i64, i64, i64, Vec<i64>) -> i64;

fn topology(
    thresholds: Vec<Vec<i64>>,
    intra: Vec<Vec<Vec<i64>>>,
    input: Vec<Vec<Vec<i64>>>,
) -> Topology {
    Topology {
        thresholds,
        rest_potential: 0,
        reset_potential: 0,
        tau: UNIT,
        intra_layer_weights: intra,
        input_weights: input,
        self_inhibition: false,
    }
}

fn one_neuron() -> Topology {
    topology(vec![vec![UNIT]], vec![vec![vec![0]]], vec![vec![vec![2 * UNIT]]])
}

fn two_layers() -> Topology {
    topology(
        vec![vec![UNIT, UNIT], vec![UNIT]],
        vec![vec![vec![0, 0], vec![0, 0]], vec![vec![0]]],
        vec![vec![vec![2 * UNIT], vec![UNIT / 2]], vec![vec![UNIT, UNIT]]],
    )
}

fn assemble(t: Topology, inputs: &[u8]) -> NeuralNetwork<Model> {
    match NeuralNetwork::assemble(t, lif as Model, inputs, b'\n') {
        Ok(n) => n,
        Err(e) => panic!("{:?}", e),
    }
}

fn refusal(t: Topology, inputs: &[u8]) -> SNNError {
    match NeuralNetwork::assemble(t, lif as Model, inputs, b'\n') {
        Ok(_) => panic!("assembled"),
        Err(e) => e,
    }
}

fn bare(t: Topology) -> NeuralNetwork<Model> {
    match NeuralNetwork::new(
        t.rest_potential,
        t.reset_potential,
        t.tau,
        lif as Model,
        t.thresholds,
        t.intra_layer_weights,
        t.input_weights,
    ) {
        Ok(n) => n,
        Err(e) => panic!("{:?}", e),
    }
}

fn sources(text: &[u8]) -> InputLayer {
    match InputLayer::from_file(text, b'\n') {
        Ok(l) => l,
        Err(e) => panic!("{:?}", e),
    }
}

#[test]
fn consistent_descriptions() {
    let t = two_layers();
    assert!(check_consistent(&t.thresholds, &t.intra_layer_weights, &t.input_weights));
    let none = topology(vec![], vec![], vec![]);
    assert!(check_consistent(&none.thresholds, &none.intra_layer_weights, &none.input_weights));
}

#[test]
fn inconsistent_descriptions() {
    let check = |t: Topology| check_consistent(&t.thresholds, &t.intra_layer_weights, &t.input_weights);
    // a matrix is missing
    assert!(!check(topology(vec![vec![UNIT]], vec![], vec![vec![vec![1]]])));
    assert!(!check(topology(vec![vec![UNIT]], vec![vec![vec![0]]], vec![])));
    // a layer without neurons
    assert!(!check(topology(vec![vec![]], vec![vec![]], vec![vec![]])));
    // second layer has one column, first layer has two neurons
    assert!(!check(topology(
        vec![vec![UNIT, UNIT], vec![UNIT]],
        vec![vec![vec![0, 0], vec![0, 0]], vec![vec![0]]],
        vec![vec![vec![1], vec![1]], vec![vec![1]]],
    )));
    // inhibitory matrix of the wrong size
    assert!(!check(topology(vec![vec![UNIT, UNIT]], vec![vec![vec![0]]], vec![vec![vec![1], vec![1]]])));
    // ragged input weights
    assert!(!check(topology(
        vec![vec![UNIT, UNIT]],
        vec![vec![vec![0, 0], vec![0, 0]]],
        vec![vec![vec![1, 2], vec![1]]],
    )));
}

#[test]
fn new_refuses_an_inconsistent_description() {
    let t = topology(vec![vec![UNIT, UNIT]], vec![vec![vec![0]]], vec![vec![vec![1], vec![1]]]);
    let r = NeuralNetwork::new(0, 0, UNIT, lif as Model, t.thresholds, t.intra_layer_weights, t.input_weights);
    assert!(matches!(r, Err(SNNError::ConfigError)));
}

#[test]
fn new_builds_neurons_at_rest() {
    let t = two_layers();
    let n = match NeuralNetwork::new(-70, -80, 2 * UNIT, lif as Model, t.thresholds, t.intra_layer_weights, t.input_weights) {
        Ok(n) => n,
        Err(e) => panic!("{:?}", e),
    };
    assert_eq!(n.n_layers(), 2);
    assert!(n.input_layer().is_none());
    assert!(n.output_monitor().is_none());
    assert!(!n.is_wired());
    let first = &n.layers()[0];
    assert!(first.is_complete());
    assert_eq!(first.len(), 2);
    assert_eq!(first.n_inputs(), 1);
    assert_eq!(first.neurons()[1].position(), 1);
    assert_eq!(first.neurons()[1].v_mem(), -70);
    assert_eq!(first.neurons()[1].threshold(), UNIT);
    assert_eq!(first.neurons()[1].local_tick(), 0);
    assert_eq!(first.excitatory(), &vec![vec![2 * UNIT], vec![UNIT / 2]]);
    assert_eq!(n.layers()[1].excitatory(), &vec![vec![UNIT, UNIT]]);
    assert_eq!(n.layers()[1].n_inputs(), 2);
    assert_eq!(first.check_wired(), Err(SNNError::Unwired));
}

#[test]
fn connect_wires_two_layers() {
    let mut n = bare(two_layers());
    assert_eq!(n.connect(0, 1), Ok(()));
    assert_eq!(n.layers()[0].sender(), Some(1));
    assert_eq!(n.layers()[0].receiver(), None);
    assert_eq!(n.layers()[1].receiver(), Some(1));
    assert_eq!(n.layers()[1].sender(), None);
}

#[test]
fn connect_to_a_layer_that_is_not_there() {
    let mut n = bare(two_layers());
    assert_eq!(n.connect(0, 2), Err(SNNError::IndexOutOfRange));
    assert_eq!(n.connect(2, 0), Err(SNNError::IndexOutOfRange));
    assert_eq!(n.connect(usize::MAX, usize::MAX), Err(SNNError::IndexOutOfRange));
    assert_eq!(n.layers()[0].sender(), None);
    assert_eq!(n.layers()[0].receiver(), None);
    let mut none = bare(topology(vec![], vec![], vec![]));
    assert_eq!(none.connect(0, 0), Err(SNNError::IndexOutOfRange));
}

#[test]
fn connect_layers_that_do_not_fit() {
    let mut n = bare(two_layers());
    // layer 1 has one neuron, layer 0 has one column: fits
    assert_eq!(n.connect(1, 0), Ok(()));
    // layer 1 has one neuron, layer 1 has two columns
    assert_eq!(n.connect(1, 1), Err(SNNError::ConfigError));
    // layer 0 has two neurons, layer 0 has one column
    assert_eq!(n.connect(0, 0), Err(SNNError::ConfigError));
}

#[test]
fn connect_input_layer_refusals() {
    let mut none = bare(topology(vec![], vec![], vec![]));
    assert_eq!(none.connect_input_layer(sources(b"1\n")), Err(SNNError::IndexOutOfRange));
    let mut n = bare(two_layers());
    assert_eq!(n.connect_input_layer(sources(b"")), Err(SNNError::EmptyInputSet));
    assert_eq!(n.connect_input_layer(sources(b"1\n0\n")), Err(SNNError::ConfigError));
    assert!(n.input_layer().is_none());
    assert_eq!(n.layers()[0].receiver(), None);
}

#[test]
fn connect_input_layer_wires_every_source() {
    let mut n = bare(two_layers());
    assert_eq!(n.connect_input_layer(sources(b"101\n")), Ok(()));
    assert_eq!(n.layers()[0].receiver(), Some(0));
    let il = n.input_layer().unwrap();
    assert_eq!(il.len(), 1);
    assert_eq!(il.check_inputs(), Ok(()));
}

#[test]
fn connect_output_refusals() {
    let mut none = bare(topology(vec![], vec![], vec![]));
    assert_eq!(none.connect_output(OutputMonitor::new(0)), Err(SNNError::IndexOutOfRange));
    let mut n = bare(two_layers());
    assert_eq!(n.connect_output(OutputMonitor::new(2)), Err(SNNError::ConfigError));
    assert!(n.output_monitor().is_none());
    assert_eq!(n.connect_output(OutputMonitor::new(1)), Ok(()));
    assert_eq!(n.layers()[1].sender(), Some(2));
    assert!(!n.output_monitor().unwrap().is_empty_receiver());
}

#[test]
fn run_before_wiring_is_unwired() {
    let mut n = bare(two_layers());
    assert_eq!(n.run(), Err(SNNError::Unwired));
    assert_eq!(n.connect_input_layer(sources(b"101\n")), Ok(()));
    assert_eq!(n.run(), Err(SNNError::Unwired));
    assert_eq!(n.connect_output(OutputMonitor::new(1)), Ok(()));
    assert_eq!(n.run(), Err(SNNError::Unwired));
    assert_eq!(n.connect(0, 1), Ok(()));
    assert!(n.is_wired());
    assert!(n.has_room());
    assert!(n.run().is_ok());
}

#[test]
fn wire_up_makes_one_chain() {
    let mut n = bare(two_layers());
    assert_eq!(n.wire_up(sources(b"1\n")), Ok(()));
    assert!(n.is_wired());
    assert_eq!(n.layers()[0].check_wired(), Ok(()));
    assert_eq!(n.layers()[1].check_wired(), Ok(()));
    assert_eq!(n.layers()[0].receiver(), Some(0));
    assert_eq!(n.layers()[0].sender(), Some(1));
    assert_eq!(n.layers()[1].receiver(), Some(1));
    assert_eq!(n.layers()[1].sender(), Some(2));
}

#[test]
fn assemble_refusals() {
    let bad = topology(vec![vec![UNIT, UNIT]], vec![vec![vec![0]]], vec![vec![vec![1], vec![1]]]);
    assert_eq!(refusal(bad, b"1\n"), SNNError::ConfigError);
    assert_eq!(refusal(one_neuron(), b"1x\n"), SNNError::MalformedInput);
    assert_eq!(refusal(one_neuron(), b"1\n1\n"), SNNError::ConfigError);
    assert_eq!(refusal(topology(vec![], vec![], vec![]), b"1\n"), SNNError::IndexOutOfRange);
}

#[test]
fn empty_input_is_reported_at_assembly() {
    assert_eq!(refusal(one_neuron(), b""), SNNError::EmptyInputSet);
    assert_eq!(refusal(one_neuron(), b"\n\n"), SNNError::EmptyInputSet);
    assert_eq!(refusal(two_layers(), b""), SNNError::EmptyInputSet);
}

#[test]
fn single_neuron_scenario() {
    let mut n = assemble(one_neuron(), b"101");
    assert!(n.has_room());
    assert_eq!(n.run(), Ok(vec![2]));
    assert_eq!(n.output_monitor().unwrap().ticks(), 3);
}

#[test]
fn single_neuron_scenario_tick_by_tick() {
    let mut n = assemble(one_neuron(), b"101");
    let mut seen = Vec::new();
    for t in 0..3 {
        let batch = n.input_layer().unwrap().batch(t).unwrap();
        let out = n.advance(batch);
        assert_eq!(out.len(), 1);
        assert_eq!(out[0].n_neuron, Some(0));
        seen.push(out[0].output);
    }
    assert_eq!(seen, vec![1, 0, 1]);
    assert_eq!(n.input_layer().unwrap().batch(3), None);
}

#[test]
fn clocks_run_in_lock_step() {
    let mut n = assemble(two_layers(), b"1011010");
    assert!(n.run().is_ok());
    for layer in n.layers() {
        assert_eq!(layer.ticks(), 7);
        for neuron in layer.neurons() {
            assert_eq!(neuron.local_tick(), 7);
        }
    }
}

#[test]
fn clocks_run_in_lock_step_batch_by_batch() {
    let mut n = assemble(two_layers(), b"1");
    for pushed in 1..=20 {
        let _ = n.advance(vec![Spike::new((pushed % 2) as i8, Some(0))]);
        for layer in n.layers() {
            for neuron in layer.neurons() {
                assert_eq!(neuron.local_tick(), pushed);
            }
        }
    }
}

#[test]
fn monitor_sees_as_many_batches_as_the_source_holds() {
    for k in 1..=9usize {
        let text: Vec<u8> = (0..k).map(|t| if t % 3 == 0 { b'1' } else { b'0' }).collect();
        let mut n = assemble(one_neuron(), &text);
        let counts = n.run().unwrap();
        assert_eq!(n.output_monitor().unwrap().ticks(), k as i32);
        assert_eq!(counts, vec![((k + 2) / 3) as i32]);
        assert!(counts.iter().all(|c| 0 <= *c && *c <= k as i32));
    }
}

#[test]
fn shortest_source_ends_the_run() {
    let t = topology(vec![vec![UNIT]], vec![vec![vec![0]]], vec![vec![vec![2 * UNIT, 2 * UNIT]]]);
    let mut n = assemble(t, b"11111\n11\n");
    assert_eq!(n.run(), Ok(vec![2]));
    assert_eq!(n.output_monitor().unwrap().ticks(), 2);
    assert_eq!(n.layers()[0].ticks(), 2);
}

#[test]
fn two_layers_count_what_the_last_emits() {
    // first layer: neuron 0 fires on every 1, neuron 1 integrates 0.5 per 1
    // second layer fires when what it gets exceeds 1.0
    let mut n = assemble(two_layers(), b"1111");
    let counts = n.run().unwrap();
    assert_eq!(counts.len(), 1);
    assert_eq!(n.output_monitor().unwrap().outputs(), &counts);
    let mut again = assemble(two_layers(), b"1111");
    let mut fired = 0;
    for t in 0..4 {
        let batch = again.input_layer().unwrap().batch(t).unwrap();
        fired += again.advance(batch)[0].output as i32;
    }
    assert_eq!(counts, vec![fired]);
}

#[test]
fn run_twice_keeps_counting() {
    let mut n = assemble(one_neuron(), b"101");
    assert_eq!(n.run(), Ok(vec![2]));
    assert!(n.has_room());
    assert_eq!(n.run(), Ok(vec![4]));
    assert_eq!(n.output_monitor().unwrap().ticks(), 6);
    assert_eq!(n.layers()[0].ticks(), 6);
}

#[test]
fn assembling_twice_gives_the_same_network() {
    let a = assemble(two_layers(), b"101\n");
    let b = assemble(two_layers(), b"101\n");
    assert_eq!(a.n_layers(), b.n_layers());
    for l in 0..a.n_layers() {
        let (x, y) = (&a.layers()[l], &b.layers()[l]);
        assert_eq!(x.excitatory(), y.excitatory());
        assert_eq!(x.inhibitory(), y.inhibitory());
        assert_eq!(x.receiver(), y.receiver());
        assert_eq!(x.sender(), y.sender());
        assert_eq!(x.neurons().len(), y.neurons().len());
        for p in 0..x.neurons().len() {
            assert_eq!(x.neurons()[p].threshold(), y.neurons()[p].threshold());
            assert_eq!(x.neurons()[p].v_mem(), y.neurons()[p].v_mem());
            assert_eq!(x.neurons()[p].position(), y.neurons()[p].position());
        }
    }
    let t = two_layers();
    for l in 0..a.n_layers() {
        assert_eq!(a.layers()[l].excitatory(), &t.input_weights[l]);
        assert_eq!(a.layers()[l].inhibitory(), &t.intra_layer_weights[l]);
        for p in 0..a.layers()[l].neurons().len() {
            assert_eq!(a.layers()[l].neurons()[p].threshold(), t.thresholds[l][p]);
        }
    }
}

#[test]
fn self_inhibition_reaches_every_layer() {
    let mut t = topology(vec![vec![UNIT]], vec![vec![vec![-5 * UNIT]]], vec![vec![vec![2 * UNIT]]]);
    let mut plain = assemble(
        topology(vec![vec![UNIT]], vec![vec![vec![-5 * UNIT]]], vec![vec![vec![2 * UNIT]]]),
        b"1111",
    );
    assert_eq!(plain.run(), Ok(vec![4]));
    t.self_inhibition = true;
    let mut inhibited = assemble(t, b"1111");
    // fires, is held down by its own spike, fires again, ...
    assert_eq!(inhibited.run(), Ok(vec![2]));
}

#[test]
fn has_room_knows_the_limit() {
    let n = assemble(one_neuron(), b"101");
    assert!(n.has_room());
    let unwired = bare(one_neuron());
    assert!(unwired.has_room());
}

#[test]
fn network_in_words() {
    let n = assemble(two_layers(), b"101\n");
    assert_eq!(
        n.to_string(),
        "Neural Network with:\n\t- input layer with [1] inputs.\n\n\t- [2] neural layers"
    );
}

#[test]
fn into_parts_hands_out_the_stages() {
    let n = assemble(two_layers(), b"101\n");
    let (sources, layers, monitor, model) = n.into_parts();
    assert_eq!(sources.unwrap().len(), 1);
    assert_eq!(layers.len(), 2);
    assert_eq!(monitor.unwrap().outputs(), &vec![0]);
    assert_eq!(model(1, 0, 0, 0, UNIT, vec![5]), 5);
}
