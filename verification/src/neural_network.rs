use vstd::prelude::*;
use vstd::string::*;
use crate::errors::SNNError;
use crate::input_layer::{lemma_batches_last_as_shortest, InputLayer};
use crate::layer_state::LayerState;
use crate::neural_layer::{has_shape, rows, NeuralLayer};
use crate::network_state::{chain_steps, chain_wf, consistent, feed, fired, follows, lemma_chained_links, lemma_fired_reads_prefix, lemma_flag_keeps_shape, lemma_linking_keeps_shape, lemma_wired_up_is_wired, matrices, NetworkState};
use crate::neuron::{model_is_total, Neuron};
use crate::output::{bookable, booked, lemma_booked_in_order, MonitorState, OutputMonitor};
use crate::spike::{all_binary, Spike};
use crate::text::append_decimal;

verus! {

/// The layers of a vector as plain values.
pub open spec fn layer_states(layers: Seq<NeuralLayer>) -> Seq<LayerState> {
    Seq::new(layers.len(), |l: int| layers[l]@)
}

/// The description of a network: for each layer the thresholds of its
/// neurons and its two matrices, and the potentials and the time constant
/// that all neurons share.
pub struct Topology {
    pub thresholds: Vec<Vec<i64>>,
    pub rest_potential: i64,
    pub reset_potential: i64,
    pub tau: i64,
    pub intra_layer_weights: Vec<Vec<Vec<i64>>>,
    pub input_weights: Vec<Vec<Vec<i64>>>,
    /// Whether a neuron listens to its own last output.
    pub self_inhibition: bool,
}

/// A feed-forward network of layers between a set of input sources and an
/// output monitor, with the membrane model that all its neurons share.
pub struct NeuralNetwork<F> {
    input_layer: Option<InputLayer>,
    neural_layers: Vec<NeuralLayer>,
    output_monitor: Option<OutputMonitor>,
    model: F,
}

impl<F> View for NeuralNetwork<F> {
    type V = NetworkState;

    closed spec fn view(&self) -> NetworkState {
        NetworkState {
            input_layer: match self.input_layer {
                Some(sources) => Some(sources@),
                None => None,
            },
            layers: layer_states(self.neural_layers@),
            output_monitor: match self.output_monitor {
                Some(monitor) => Some(monitor@),
                None => None,
            },
        }
    }
}

/// A copy of a row of weights.
fn copy_row(row: &Vec<i64>) -> (copy: Vec<i64>)
    ensures
        copy@ == row@,
{
    let mut copy: Vec<i64> = Vec::new();
    let mut s: usize = 0;
    while s < row.len()
        invariant
            s <= row.len(),
            copy@ == row@.take(s as int),
        decreases row.len() - s,
    {
        copy.push(row[s]);
        assert(copy@ == row@.take(s + 1));
        s = s + 1;
    }
    assert(row@.take(s as int) == row@);
    copy
}

/// A copy of a matrix of weights.
fn copy_matrix(m: &Vec<Vec<i64>>) -> (copy: Vec<Vec<i64>>)
    ensures
        rows(copy@) == rows(m@),
{
    let mut copy: Vec<Vec<i64>> = Vec::new();
    let mut p: usize = 0;
    while p < m.len()
        invariant
            p <= m.len(),
            rows(copy@) == rows(m@).take(p as int),
        decreases m.len() - p,
    {
        let row = copy_row(&m[p]);
        let ghost before = copy@;
        copy.push(row);
        assert(rows(before).len() == p);
        assert forall|q: int| 0 <= q < p + 1 implies #[trigger] rows(copy@)[q] == rows(m@)[q] by {
            if q < p {
                assert(copy@[q] == before[q]);
                assert(rows(before)[q] == rows(m@).take(p as int)[q]);
            }
        }
        assert(rows(copy@) =~= rows(m@).take(p + 1));
        p = p + 1;
    }
    assert(rows(m@).take(p as int) == rows(m@));
    copy
}

/// Tells whether the description of a network agrees with itself.
pub fn check_consistent(
    thresholds: &Vec<Vec<i64>>,
    intra_layer_weights: &Vec<Vec<Vec<i64>>>,
    input_weights: &Vec<Vec<Vec<i64>>>,
) -> (ok: bool)
    ensures
        ok == consistent(rows(thresholds@), matrices(intra_layer_weights@), matrices(input_weights@)),
{
    let n_layers = thresholds.len();
    if intra_layer_weights.len() != n_layers || input_weights.len() != n_layers {
        return false;
    }
    let ghost th = rows(thresholds@);
    let ghost intra = matrices(intra_layer_weights@);
    let ghost input = matrices(input_weights@);
    let mut l: usize = 0;
    while l < n_layers
        invariant
            l <= n_layers,
            n_layers == thresholds@.len(),
            th == rows(thresholds@),
            intra == matrices(intra_layer_weights@),
            input == matrices(input_weights@),
            intra.len() == n_layers,
            input.len() == n_layers,
            forall|k: int| 0 <= k < l ==> LayerState::fits((#[trigger] th[k]).len(), intra[k], input[k]),
            forall|k: int| 1 <= k < l ==> (#[trigger] input[k])[0].len() == th[k - 1].len(),
        decreases n_layers - l,
    {
        let n = thresholds[l].len();
        proof {
            assert(th[l as int] == thresholds@[l as int]@);
            assert(intra[l as int] == rows(intra_layer_weights@[l as int]@));
            assert(input[l as int] == rows(input_weights@[l as int]@));
        }
        if n == 0 || n > i32::MAX as usize || input_weights[l].len() != n {
            assert(!LayerState::fits(th[l as int].len(), intra[l as int], input[l as int]));
            return false;
        }
        let n_inputs = input_weights[l][0].len();
        assert(input[l as int][0] == input_weights@[l as int]@[0]@);
        if !has_shape(&input_weights[l], n, n_inputs)
            || !has_shape(&intra_layer_weights[l], n, n) {
            assert(!LayerState::fits(th[l as int].len(), intra[l as int], input[l as int]));
            return false;
        }
        assert(LayerState::fits(th[l as int].len(), intra[l as int], input[l as int]));
        if l > 0 {
            assert(th[l - 1] == thresholds@[l - 1]@);
            if n_inputs != thresholds[l - 1].len() {
                return false;
            }
        }
        l = l + 1;
    }
    true
}

/// Builds one complete layer at rest from its thresholds and matrices.
fn build_layer(
    v_rest: i64,
    v_reset: i64,
    tau: i64,
    thresholds: &Vec<i64>,
    intra_layer_weights: &Vec<Vec<i64>>,
    input_weights: &Vec<Vec<i64>>,
) -> (result: Result<NeuralLayer, SNNError>)
    requires
        LayerState::fits(thresholds@.len(), rows(intra_layer_weights@), rows(input_weights@)),
    ensures
        result matches Ok(layer) && layer@ == LayerState::built(
            v_rest,
            v_reset,
            tau,
            thresholds@,
            rows(intra_layer_weights@),
            rows(input_weights@),
        ) && layer@.wf() && layer@.complete(),
{
    let n = thresholds.len();
    let ghost goal = LayerState::built(
        v_rest,
        v_reset,
        tau,
        thresholds@,
        rows(intra_layer_weights@),
        rows(input_weights@),
    );
    let mut layer = match NeuralLayer::new(
        n,
        copy_matrix(intra_layer_weights),
        copy_matrix(input_weights),
    ) {
        Ok(layer) => layer,
        Err(e) => {
            return Err(e);
        },
    };
    let mut p: usize = 0;
    assert(layer@.neurons =~= goal.neurons.take(0));
    assert(layer@.last_output =~= goal.last_output.take(0));
    while p < n
        invariant
            p <= n,
            n == thresholds@.len(),
            n <= i32::MAX,
            layer@.wf(),
            goal == LayerState::built(
                v_rest,
                v_reset,
                tau,
                thresholds@,
                rows(intra_layer_weights@),
                rows(input_weights@),
            ),
            layer@ == (LayerState {
                neurons: goal.neurons.take(p as int),
                last_output: goal.last_output.take(p as int),
                ..goal
            }),
        decreases n - p,
    {
        let neuron = Neuron::new(thresholds[p], v_rest, v_reset, tau, p as i32);
        let ghost before = layer@;
        match layer.add_neuron(neuron) {
            Ok(()) => {},
            Err(e) => {
                return Err(e);
            },
        }
        proof {
            assert(neuron@ == goal.neurons[p as int]);
            assert(before.neurons.push(neuron@) =~= goal.neurons.take(p + 1));
            assert(before.last_output.push(Spike { output: 0, n_neuron: Some(p as i32) })
                =~= goal.last_output.take(p + 1));
        }
        p = p + 1;
    }
    proof {
        assert(goal.neurons.take(n as int) == goal.neurons);
        assert(goal.last_output.take(n as int) == goal.last_output);
    }
    Ok(layer)
}

/// A copy of the counts.
fn copy_counts(counts: &Vec<i32>) -> (copy: Vec<i32>)
    ensures
        copy@ == counts@,
{
    let mut copy: Vec<i32> = Vec::new();
    let mut i: usize = 0;
    while i < counts.len()
        invariant
            i <= counts.len(),
            copy@ == counts@.take(i as int),
        decreases counts.len() - i,
    {
        copy.push(counts[i]);
        assert(copy@ == counts@.take(i + 1));
        i = i + 1;
    }
    assert(counts@.take(i as int) == counts@);
    copy
}

/// Attaches a link, channel and barrier, to one side of a layer of a chain.
fn link_layer(layers: &mut Vec<NeuralLayer>, l: usize, link: usize, input_side: bool)
    requires
        l < old(layers)@.len(),
    ensures
        final(layers)@.len() == old(layers)@.len(),
        layer_states(final(layers)@) == layer_states(old(layers)@).update(
            l as int,
            layer_states(old(layers)@)[l as int].linked(link, input_side),
        ),
{
    if input_side {
        layers[l].add_receiver(link);
    } else {
        layers[l].add_sender(link);
    }
    layers[l].set_barrier(link, input_side);
    assert(layer_states(layers@) =~= layer_states(old(layers)@).update(
        l as int,
        layer_states(old(layers)@)[l as int].linked(link, input_side),
    ));
}

/// Pushes one batch through a chain of layers and returns what the last
/// layer emits (the batch itself, for no layers).
fn push_through<F: Fn(i32, i32, i64, i64, i64, Vec<i64>) -> i64>(
    layers: &mut Vec<NeuralLayer>,
    model: &F,
    batch: Vec<Spike>,
) -> (out: Vec<Spike>)
    requires
        chain_wf(layer_states(old(layers)@)),
        old(layers)@.len() > 0,
        old(layers)@[0]@.takes(batch@),
        old(layers)@[0]@.tick < i32::MAX,
        model_is_total(*model),
    ensures
        chain_steps(*model, layer_states(old(layers)@), batch@, layer_states(final(layers)@)),
        chain_wf(layer_states(final(layers)@)),
        final(layers)@[0]@.tick == old(layers)@[0]@.tick + 1,
        out@ == layer_states(final(layers)@).last().last_output,
{
    let n = layers.len();
    let ghost before = layer_states(layers@);
    let mut current = batch;
    let mut l: usize = 0;
    while l < n
        invariant
            l <= n,
            n > 0,
            layers@.len() == n,
            before.len() == n,
            chain_wf(before),
            before[0].takes(batch@),
            before[0].tick < i32::MAX,
            model_is_total(*model),
            current@ == feed(batch@, layer_states(layers@), l as int),
            all_binary(current@),
            forall|k: int| l <= k < n ==> (#[trigger] layers@[k])@ == before[k],
            forall|k: int|
                0 <= k < l ==> {
                    &&& (#[trigger] before[k]).steps_to(
                        *model,
                        feed(batch@, layer_states(layers@), k),
                        layers@[k]@,
                        layers@[k]@.last_output,
                    )
                    &&& layers@[k]@.wf()
                    &&& layers@[k]@.complete()
                },
        decreases n - l,
    {
        let ghost states = layer_states(layers@);
        proof {
            assert(before[l as int].wf());
            assert(before[0].wf());
            if l > 0 {
                assert(before[l as int].n_inputs == before[l - 1].size);
                assert(before[l - 1].steps_to(
                    *model,
                    feed(batch@, states, l - 1),
                    states[l - 1],
                    states[l - 1].last_output,
                ));
            }
        }
        let out = layers[l].run_neurons(&current, model);
        proof {
            let now = layer_states(layers@);
            assert forall|k: int| 0 <= k < l + 1 implies {
                &&& (#[trigger] before[k]).steps_to(
                    *model,
                    feed(batch@, now, k),
                    layers@[k]@,
                    layers@[k]@.last_output,
                )
                &&& layers@[k]@.wf()
                &&& layers@[k]@.complete()
            } by {
                if k < l {
                    assert(now[k] == states[k]);
                    assert(feed(batch@, now, k) == feed(batch@, states, k));
                } else {
                    assert(feed(batch@, now, k) == feed(batch@, states, k));
                }
            }
        }
        current = out;
        l = l + 1;
    }
    proof {
        let after = layer_states(layers@);
        assert forall|k: int| 0 <= k < n implies {
            &&& (#[trigger] after[k]).wf()
            &&& after[k].complete()
            &&& after[k].tick == after[0].tick
        } by {
            assert(before[k].tick == before[0].tick);
            assert(before[k].steps_to(*model, feed(batch@, after, k), after[k], after[k].last_output));
            assert(before[0].steps_to(*model, feed(batch@, after, 0), after[0], after[0].last_output));
        }
        assert forall|k: int| 1 <= k < n implies (#[trigger] after[k]).n_inputs == after[k
            - 1].size by {
            assert(before[k].n_inputs == before[k - 1].size);
            assert(before[k].steps_to(*model, feed(batch@, after, k), after[k], after[k].last_output));
            assert(before[k - 1].steps_to(
                *model,
                feed(batch@, after, k - 1),
                after[k - 1],
                after[k - 1].last_output,
            ));
        }
        assert(before[0].steps_to(*model, feed(batch@, after, 0), after[0], after[0].last_output));
    }
    current
}

impl<F: Fn(i32, i32, i64, i64, i64, Vec<i64>) -> i64> NeuralNetwork<F> {
    /// The membrane model that the neurons of the network share.
    pub closed spec fn model(&self) -> F {
        self.model
    }

    /// Builds the layers of a network, every neuron at rest, with nothing
    /// wired yet. `thresholds[l][p]` is the threshold of neuron `p` of layer
    /// `l`; `intra_layer_weights[l]` and `input_weights[l]` are the
    /// inhibitory and the excitatory matrix of layer `l`. A description that
    /// does not agree with itself is refused.
    pub fn new(
        v_rest: i64,
        v_reset: i64,
        tau: i64,
        model: F,
        thresholds: Vec<Vec<i64>>,
        intra_layer_weights: Vec<Vec<Vec<i64>>>,
        input_weights: Vec<Vec<Vec<i64>>>,
    ) -> (result: Result<Self, SNNError>)
        ensures
            !consistent(
                rows(thresholds@),
                matrices(intra_layer_weights@),
                matrices(input_weights@),
            ) ==> result is Err && result->Err_0 == SNNError::ConfigError,
            consistent(rows(thresholds@), matrices(intra_layer_weights@), matrices(input_weights@))
                ==> (result matches Ok(network) && network@.wf() && network.model() == model
                && network@ == NetworkState::built(
                v_rest,
                v_reset,
                tau,
                rows(thresholds@),
                matrices(intra_layer_weights@),
                matrices(input_weights@),
            )),
    {
        if !check_consistent(&thresholds, &intra_layer_weights, &input_weights) {
            return Err(SNNError::ConfigError);
        }
        let ghost goal = NetworkState::built(
            v_rest,
            v_reset,
            tau,
            rows(thresholds@),
            matrices(intra_layer_weights@),
            matrices(input_weights@),
        );
        let n_layers = thresholds.len();
        let mut layers: Vec<NeuralLayer> = Vec::new();
        let mut l: usize = 0;
        while l < n_layers
            invariant
                l <= n_layers,
                n_layers == thresholds@.len(),
                consistent(
                    rows(thresholds@),
                    matrices(intra_layer_weights@),
                    matrices(input_weights@),
                ),
                goal == NetworkState::built(
                    v_rest,
                    v_reset,
                    tau,
                    rows(thresholds@),
                    matrices(intra_layer_weights@),
                    matrices(input_weights@),
                ),
                layers@.len() == l,
                forall|k: int|
                    0 <= k < l ==> (#[trigger] layers@[k])@ == goal.layers[k] && layers@[k]@.wf()
                        && layers@[k]@.complete(),
            decreases n_layers - l,
        {
            proof {
                assert(rows(thresholds@)[l as int] == thresholds@[l as int]@);
                assert(matrices(intra_layer_weights@)[l as int] == rows(
                    intra_layer_weights@[l as int]@,
                ));
                assert(matrices(input_weights@)[l as int] == rows(input_weights@[l as int]@));
            }
            let layer = match build_layer(
                v_rest,
                v_reset,
                tau,
                &thresholds[l],
                &intra_layer_weights[l],
                &input_weights[l],
            ) {
                Ok(layer) => layer,
                Err(e) => {
                    return Err(e);
                },
            };
            layers.push(layer);
            l = l + 1;
        }
        let network = Self {
            input_layer: None,
            neural_layers: layers,
            output_monitor: None,
            model,
        };
        proof {
            assert(network@.layers =~= goal.layers);
            assert forall|k: int| 1 <= k < network@.layers.len() implies (
            #[trigger] network@.layers[k]).n_inputs == network@.layers[k - 1].size by {
                assert(matrices(input_weights@)[k][0].len() == rows(thresholds@)[k - 1].len());
            }
        }
        Ok(network)
    }

    /// Tells every layer whether its neurons listen to their own last output.
    pub fn set_self_inhibition(&mut self, allowed: bool)
        requires
            old(self)@.wf(),
        ensures
            final(self)@.wf(),
            final(self).model() == old(self).model(),
            final(self)@ == old(self)@.inhibiting(allowed),
    {
        let n = self.neural_layers.len();
        let mut l: usize = 0;
        while l < n
            invariant
                l <= n,
                n == old(self)@.layers.len(),
                self.neural_layers@.len() == n,
                self.model == old(self).model,
                self.input_layer == old(self).input_layer,
                self.output_monitor == old(self).output_monitor,
                forall|k: int|
                    0 <= k < l ==> #[trigger] self@.layers[k] == (LayerState {
                        self_inhibition: allowed,
                        ..old(self)@.layers[k]
                    }),
                forall|k: int| l <= k < n ==> #[trigger] self@.layers[k] == old(self)@.layers[k],
            decreases n - l,
        {
            let ghost before = self@.layers;
            self.neural_layers[l].set_self_inhibition(allowed);
            proof {
                assert forall|k: int| 0 <= k < l + 1 implies #[trigger] self@.layers[k] == (
                LayerState { self_inhibition: allowed, ..old(self)@.layers[k] }) by {
                    if k < l {
                        assert(self@.layers[k] == before[k]);
                    } else {
                        assert(before[k] == old(self)@.layers[k]);
                    }
                }
                assert forall|k: int| l + 1 <= k < n implies #[trigger] self@.layers[k] == old(
                    self,
                )@.layers[k] by {
                    assert(self@.layers[k] == before[k]);
                }
            }
            l = l + 1;
        }
        proof {
            assert(self@.layers =~= old(self)@.inhibiting(allowed).layers);
            lemma_flag_keeps_shape(old(self)@, self@);
        }
    }

    /// Wires layer `from` to layer `to`: the link into `to` is attached,
    /// channel and barrier, to the output side of `from` and to the input
    /// side of `to`. A layer that does not exist is out of range; layers
    /// whose dimensions do not match are refused.
    pub fn connect(&mut self, from: usize, to: usize) -> (result: Result<(), SNNError>)
        requires
            old(self)@.wf(),
        ensures
            final(self)@.wf(),
            final(self).model() == old(self).model(),
            result == old(self)@.can_connect(from as int, to as int),
            result is Ok ==> final(self)@ == old(self)@.connected(from as int, to as int),
            result is Err ==> final(self)@ == old(self)@,
    {
        let n = self.neural_layers.len();
        if from >= n || to >= n {
            return Err(SNNError::IndexOutOfRange);
        }
        if self.neural_layers[from].len() != self.neural_layers[to].n_inputs() {
            return Err(SNNError::ConfigError);
        }
        link_layer(&mut self.neural_layers, to, to, true);
        link_layer(&mut self.neural_layers, from, to, false);
        proof {
            lemma_linking_keeps_shape(old(self)@, self@);
        }
        Ok(())
    }

    /// Attaches the input sources to the first layer by link 0, which every
    /// source sends on. Without a layer there is nothing to attach to; an
    /// empty set of sources is reported; as many sources are needed as the
    /// first layer has columns of weights.
    pub fn connect_input_layer(&mut self, input_layer: InputLayer) -> (result: Result<
        (),
        SNNError,
    >)
        requires
            old(self)@.wf(),
            input_layer@.wf(),
        ensures
            final(self)@.wf(),
            final(self).model() == old(self).model(),
            result == old(self)@.can_connect_input(input_layer@),
            result is Ok ==> final(self)@ == old(self)@.with_input(input_layer@),
            result is Err ==> final(self)@ == old(self)@,
    {
        if self.neural_layers.len() == 0 {
            return Err(SNNError::IndexOutOfRange);
        }
        let n = input_layer.len();
        if n == 0 {
            return Err(SNNError::EmptyInputSet);
        }
        if n != self.neural_layers[0].n_inputs() {
            return Err(SNNError::ConfigError);
        }
        let ghost given = input_layer@;
        let mut input_layer = input_layer;
        let mut i: usize = 0;
        while i < n
            invariant
                i <= n,
                n == given.inputs.len(),
                input_layer@.inputs.len() == n,
                forall|j: int|
                    0 <= j < i ==> #[trigger] input_layer@.inputs[j] == given.linked(0).inputs[j],
                forall|j: int| i <= j < n ==> #[trigger] input_layer@.inputs[j] == given.inputs[j],
            decreases n - i,
        {
            match input_layer.add_sender_to(i, 0) {
                Ok(()) => {},
                Err(e) => {
                    return Err(e);
                },
            }
            i = i + 1;
        }
        link_layer(&mut self.neural_layers, 0, 0, true);
        proof {
            assert(input_layer@.inputs =~= given.linked(0).inputs);
            assert(given.linked(0).wf()) by {
                assert forall|j: int| 0 <= j < n implies (#[trigger] given.linked(0).inputs[j]).wf()
                    && given.linked(0).inputs[j].index == Some(j as i32) by {
                    assert(given.inputs[j].wf());
                }
            }
        }
        self.input_layer = Some(input_layer);
        proof {
            lemma_linking_keeps_shape(old(self)@, self@);
        }
        Ok(())
    }

    /// Attaches the output monitor to the last layer, by the link whose
    /// number is the number of layers. Without a layer there is nothing to
    /// attach to; the monitor has to keep one count for each neuron of the
    /// last layer.
    pub fn connect_output(&mut self, output_monitor: OutputMonitor) -> (result: Result<
        (),
        SNNError,
    >)
        requires
            old(self)@.wf(),
        ensures
            final(self)@.wf(),
            final(self).model() == old(self).model(),
            result == old(self)@.can_connect_output(output_monitor@),
            result is Ok ==> final(self)@ == old(self)@.with_output(output_monitor@),
            result is Err ==> final(self)@ == old(self)@,
    {
        let n = self.neural_layers.len();
        if n == 0 {
            return Err(SNNError::IndexOutOfRange);
        }
        let last = n - 1;
        if output_monitor.outputs().len() != self.neural_layers[last].len() {
            return Err(SNNError::ConfigError);
        }
        link_layer(&mut self.neural_layers, last, n, false);
        let mut output_monitor = output_monitor;
        output_monitor.add_receiver(n);
        self.output_monitor = Some(output_monitor);
        proof {
            lemma_linking_keeps_shape(old(self)@, self@);
        }
        Ok(())
    }

    /// Wires every layer to the next.
    pub fn chain(&mut self)
        requires
            old(self)@.wf(),
            old(self)@.layers.len() > 0,
        ensures
            final(self)@.wf(),
            final(self).model() == old(self).model(),
            final(self)@ == old(self)@.chained(old(self)@.layers.len() - 1),
            final(self)@.layers.len() == old(self)@.layers.len(),
    {
        let n = self.neural_layers.len();
        let mut l: usize = 0;
        while l + 1 < n
            invariant
                l < n,
                n == old(self)@.layers.len(),
                self@.layers.len() == n,
                self@.wf(),
                self.model() == old(self).model(),
                self@ == old(self)@.chained(l as int),
            decreases n - l,
        {
            proof {
                assert(self@.layers[l + 1].n_inputs == self@.layers[l as int].size);
            }
            match self.connect(l, l + 1) {
                Ok(()) => {},
                Err(_) => {},
            }
            l = l + 1;
        }
    }

    /// Wires the network into one chain: the sources to the first layer,
    /// every layer to the next, the last layer to a fresh monitor.
    pub fn wire_up(&mut self, sources: InputLayer) -> (result: Result<(), SNNError>)
        requires
            old(self)@.wf(),
            sources@.wf(),
        ensures
            final(self).model() == old(self).model(),
            final(self)@.wf(),
            match old(self)@.wired_up(sources@) {
                Ok(state) => result == Ok::<(), SNNError>(()) && final(self)@ == state
                    && final(self)@.wired(),
                Err(e) => result == Err::<(), SNNError>(e) && final(self)@ == old(self)@,
            },
    {
        match self.connect_input_layer(sources) {
            Ok(()) => {},
            Err(e) => {
                return Err(e);
            },
        }
        self.chain();
        let n = self.neural_layers.len();
        let last = self.neural_layers[n - 1].len();
        assert(self.neural_layers@[n - 1]@ == self@.layers.last());
        let monitor = OutputMonitor::new(last);
        match self.connect_output(monitor) {
            Ok(()) => {},
            Err(e) => {
                return Err(e);
            },
        }
        proof {
            lemma_wired_up_is_wired(old(self)@, sources@);
        }
        Ok(())
    }

    /// Assembles a network from its description, its model and the text of
    /// its input lines: builds the layers, reads the sources, and wires
    /// sources, layers and a fresh monitor into one chain.
    pub fn assemble(topology: Topology, model: F, inputs: &[u8], delimiter: u8) -> (result: Result<
        Self,
        SNNError,
    >)
        ensures
            match topology.assembled(inputs@, delimiter) {
                Ok(state) => result matches Ok(network) && network@ == state && network@.wf()
                    && network@.wired() && network.model() == model,
                Err(e) => result matches Err(reported) && reported == e,
            },
    {
        let self_inhibition = topology.self_inhibition;
        let mut network = match Self::new(
            topology.rest_potential,
            topology.reset_potential,
            topology.tau,
            model,
            topology.thresholds,
            topology.intra_layer_weights,
            topology.input_weights,
        ) {
            Ok(network) => network,
            Err(e) => {
                return Err(e);
            },
        };
        network.set_self_inhibition(self_inhibition);
        let sources = match InputLayer::from_file(inputs, delimiter) {
            Ok(sources) => sources,
            Err(e) => {
                return Err(e);
            },
        };
        match network.wire_up(sources) {
            Ok(()) => Ok(network),
            Err(e) => Err(e),
        }
    }

    /// Tells whether sources, layers and monitor form one chain.
    pub fn is_wired(&self) -> (wired: bool)
        ensures
            wired == self@.wired(),
    {
        match &self.input_layer {
            None => {
                return false;
            },
            Some(sources) => {
                if sources.len() > 0 {
                    match sources.check_inputs() {
                        Ok(()) => {},
                        Err(_) => {
                            return false;
                        },
                    }
                }
            },
        }
        match &self.output_monitor {
            None => {
                return false;
            },
            Some(monitor) => {
                if monitor.is_empty_receiver() {
                    return false;
                }
            },
        }
        let n = self.neural_layers.len();
        let mut l: usize = 0;
        while l < n
            invariant
                l <= n,
                n == self.neural_layers@.len(),
                forall|k: int|
                    0 <= k < l ==> {
                        &&& (#[trigger] self@.layers[k]).wired()
                        &&& self@.layers[k].receiver == Some(k as usize)
                        &&& self@.layers[k].sender == Some((k + 1) as usize)
                    },
            decreases n - l,
        {
            let layer = &self.neural_layers[l];
            assert(layer@ == self@.layers[l as int]);
            let chained = match (layer.receiver(), layer.sender()) {
                (Some(rx), Some(tx)) => rx == l && tx == l + 1,
                _ => false,
            };
            if !chained || layer.check_wired().is_err() {
                return false;
            }
            l = l + 1;
        }
        true
    }

    /// Tells whether a run of the whole input overflows neither a clock nor
    /// a count.
    pub fn has_room(&self) -> (ok: bool)
        ensures
            ok == self@.room_for(self@.duration()),
    {
        let k = match &self.input_layer {
            Some(sources) => sources.duration(),
            None => 0,
        };
        if self.neural_layers.len() > 0 {
            assert(self.neural_layers@[0]@ == self@.layers[0]);
            let tick = self.neural_layers[0].ticks();
            if k > i32::MAX as usize || tick < 0 || tick > i32::MAX - k as i32 {
                return false;
            }
        }
        match &self.output_monitor {
            None => true,
            Some(monitor) => monitor.has_room(k),
        }
    }

    /// Pushes one batch through all layers, in order, and returns what the
    /// last layer emits. Every layer, and so every neuron, moves its clock
    /// by one.
    pub fn advance(&mut self, batch: Vec<Spike>) -> (out: Vec<Spike>)
        requires
            old(self)@.wf(),
            old(self)@.layers.len() > 0,
            old(self)@.layers[0].takes(batch@),
            old(self)@.layers[0].tick < i32::MAX,
            model_is_total(old(self).model()),
        ensures
            final(self)@.wf(),
            final(self).model() == old(self).model(),
            old(self)@.steps_to(old(self).model(), batch@, final(self)@),
            out@ == final(self)@.layers.last().last_output,
            forall|l: int|
                0 <= l < final(self)@.layers.len() ==> (#[trigger] final(self)@.layers[l]).tick
                    == old(self)@.layers[l].tick + 1,
    {
        let out = push_through(&mut self.neural_layers, &self.model, batch);
        proof {
            let before = old(self)@.layers;
            let after = self@.layers;
            assert forall|l: int| 0 <= l < after.len() implies (#[trigger] after[l]).tick
                == before[l].tick + 1 by {
                assert(before[l].tick == before[0].tick);
                assert(after[l].tick == after[0].tick);
            }
            assert(after.last().size == before.last().size) by {
                assert(before[before.len() - 1].steps_to(
                    self.model,
                    feed(batch@, after, before.len() - 1),
                    after[before.len() - 1],
                    after[before.len() - 1].last_output,
                ));
            }
            assert(after[0].n_inputs == before[0].n_inputs) by {
                assert(before[0].steps_to(
                    self.model,
                    feed(batch@, after, 0),
                    after[0],
                    after[0].last_output,
                ));
            }
        }
        out
    }

    /// Runs the whole simulation in the order that the lock-stepped pipeline
    /// keeps: tick by tick, the batch of the sources goes through the layers,
    /// and what the last layer emits is counted by the monitor. When the
    /// sources close, the counts are returned.
    ///
    /// A network whose stages do not form one chain does not start.
    pub fn run(&mut self) -> (result: Result<Vec<i32>, SNNError>)
        requires
            old(self)@.wf(),
            model_is_total(old(self).model()),
            old(self)@.wired() ==> old(self)@.room_for(old(self)@.duration()),
        ensures
            final(self).model() == old(self).model(),
            !old(self)@.wired() ==> result == Err::<Vec<i32>, SNNError>(SNNError::Unwired)
                && final(self)@ == old(self)@,
            old(self)@.wired() ==> {
                &&& result matches Ok(counts)
                &&& final(self)@.output_monitor matches Some(monitor)
                &&& counts@ == monitor.outputs
                &&& final(self)@.wf()
                &&& exists|trace: Seq<Seq<LayerState>>| #[trigger]
                    old(self)@.runs_to(old(self).model(), trace, final(self)@)
            },
    {
        if !self.is_wired() {
            return Err(SNNError::Unwired);
        }
        let sources = match self.input_layer.take() {
            Some(sources) => sources,
            None => {
                return Err(SNNError::Unwired);
            },
        };
        let mut monitor = match self.output_monitor.take() {
            Some(monitor) => monitor,
            None => {
                return Err(SNNError::Unwired);
            },
        };
        let k = sources.duration();
        let ghost start = old(self)@;
        let ghost counts0 = monitor@.outputs;
        let ghost ts0 = monitor@.ts;
        let ghost mut trace: Seq<Seq<LayerState>> = seq![start.layers];
        let mut t: usize = 0;
        while t < k
            invariant
                t <= k,
                k == sources@.duration(),
                start == old(self)@,
                start.wf(),
                start.input_layer == Some(sources@),
                start.output_monitor == Some(MonitorState { outputs: counts0, ts: ts0, ..monitor@ }),
                start.room_for(k as int),
                self.model == old(self).model,
                model_is_total(self.model),
                chain_wf(layer_states(self.neural_layers@)),
                self.neural_layers@.len() == start.layers.len(),
                self.neural_layers@.len() > 0,
                layer_states(self.neural_layers@)[0].tick == start.layers[0].tick + t,
                layer_states(self.neural_layers@)[0].n_inputs == start.layers[0].n_inputs,
                layer_states(self.neural_layers@).last().size == start.layers.last().size,
                follows(self.model, sources@, trace, t as int),
                trace[0] == start.layers,
                trace[t as int] == layer_states(self.neural_layers@),
                monitor@.ts == ts0 + t,
                monitor@.outputs.len() == counts0.len(),
                forall|i: int|
                    0 <= i < counts0.len() ==> #[trigger] monitor@.outputs[i] == counts0[i] + fired(
                        trace,
                        i,
                        t as int,
                    ) && 0 <= fired(trace, i, t as int) <= t,
            decreases k - t,
        {
            proof {
                lemma_batches_last_as_shortest(sources@, t as int);
            }
            let batch = match sources.batch(t) {
                Some(batch) => batch,
                None => {
                    return Err(SNNError::Unwired);
                },
            };
            let ghost before = layer_states(self.neural_layers@);
            proof {
                assert(sources@.batch(t as int).len() == before[0].n_inputs);
                assert forall|i: int| 0 <= i < batch@.len() implies (#[trigger] batch@[i]).is_binary() by {
                    assert(sources@.inputs[i].wf());
                    assert(sources@.inputs[i].spikes[t as int] == 0 || sources@.inputs[i].spikes[t as int] == 1);
                }
            }
            let out = push_through(&mut self.neural_layers, &self.model, batch);
            let ghost after = layer_states(self.neural_layers@);
            let ghost longer = trace.push(after);
            proof {
                let last = after.len() - 1;
                assert(before[last].steps_to(
                    self.model,
                    feed(batch@, after, last),
                    after[last],
                    after[last].last_output,
                ));
                assert(before[0].steps_to(
                    self.model,
                    feed(batch@, after, 0),
                    after[0],
                    after[0].last_output,
                ));
                assert(after[last].wf());
                assert(out@.len() == counts0.len());
                assert forall|u: int| 0 <= u < t + 1 implies chain_steps(
                    self.model,
                    #[trigger] longer[u],
                    sources@.batch(u),
                    longer[u + 1],
                ) by {
                    if u < t {
                        assert(longer[u] == trace[u]);
                        assert(longer[u + 1] == trace[u + 1]);
                    }
                }
                assert forall|i: int| 0 <= i < counts0.len() implies fired(longer, i, t + 1)
                    == fired(trace, i, t as int) + out@[i].output && out@[i].is_binary()
                    && booked(out@, i) == out@[i].output by {
                    lemma_fired_reads_prefix(trace, longer, i, t as int);
                    lemma_booked_in_order(out@, i);
                    assert(after[last].last_output[i].is_binary());
                }
            }
            let ghost emitted = out@;
            let ghost prior = monitor@;
            match monitor.receive(Some(out)) {
                Ok(()) => {
                    monitor.count_tick();
                },
                Err(e) => {
                    proof {
                        let stop = choose|stop: int| #[trigger]
                            prior.stops_at(emitted, stop, monitor@, e);
                        assert(prior.stops_at(emitted, stop, monitor@, e));
                        assert(emitted[stop] == after[after.len() - 1].last_output[stop]);
                        assert(bookable(emitted[stop], prior.outputs.len()));
                    }
                    return Err(e);
                },
            }
            proof {
                assert(emitted.take(emitted.len() as int) == emitted);
                assert forall|i: int| 0 <= i < counts0.len() implies #[trigger] monitor@.outputs[i]
                    == counts0[i] + fired(longer, i, t + 1) && 0 <= fired(longer, i, t + 1) <= t
                    + 1 by {
                    lemma_fired_reads_prefix(trace, longer, i, t as int);
                    lemma_booked_in_order(emitted, i);
                    assert(prior.outputs[i] == counts0[i] + fired(trace, i, t as int));
                    assert(emitted[i].is_binary());
                }
                trace = longer;
            }
            t = t + 1;
        }
        // The sources have closed, and so does every stage after them: the
        // monitor is told, keeps its counts, and the run is over.
        let _closed = monitor.receive(None);
        let counts = copy_counts(monitor.outputs());
        self.input_layer = Some(sources);
        self.output_monitor = Some(monitor);
        proof {
            assert(start.runs_to(self.model, trace, self@));
        }
        Ok(counts)
    }

    /// Takes the network apart into its stages and the model, for the
    /// workers that run one stage each.
    pub fn into_parts(self) -> (parts: (Option<InputLayer>, Vec<NeuralLayer>, Option<OutputMonitor>, F))
        ensures
            layer_states(parts.1@) == self@.layers,
            parts.3 == self.model(),
            match parts.0 {
                Some(sources) => self@.input_layer == Some(sources@),
                None => self@.input_layer is None,
            },
            match parts.2 {
                Some(monitor) => self@.output_monitor == Some(monitor@),
                None => self@.output_monitor is None,
            },
    {
        (self.input_layer, self.neural_layers, self.output_monitor, self.model)
    }

    /// The number of layers.
    pub fn n_layers(&self) -> (n: usize)
        ensures
            n == self@.layers.len(),
    {
        self.neural_layers.len()
    }

    /// The layers, in order.
    pub fn layers(&self) -> (layers: &Vec<NeuralLayer>)
        ensures
            layer_states(layers@) == self@.layers,
    {
        &self.neural_layers
    }

    /// The input sources, once they are attached.
    pub fn input_layer(&self) -> (sources: Option<&InputLayer>)
        ensures
            match sources {
                Some(sources) => self@.input_layer == Some(sources@),
                None => self@.input_layer is None,
            },
    {
        self.input_layer.as_ref()
    }

    /// The output monitor, once it is attached.
    pub fn output_monitor(&self) -> (monitor: Option<&OutputMonitor>)
        ensures
            match monitor {
                Some(monitor) => self@.output_monitor == Some(monitor@),
                None => self@.output_monitor is None,
            },
    {
        self.output_monitor.as_ref()
    }

    /// The network in words: its sources and the number of its layers.
    pub fn to_string(&self) -> (text: String)
        requires
            self@.input_layer is Some,
        ensures
            text@ == self@.described(),
    {
        let mut text = String::from_str("Neural Network with:\n\t- ");
        match &self.input_layer {
            Some(sources) => {
                let described = sources.to_string();
                text.append(described.as_str());
            },
            None => {},
        }
        text.append("\n\t- [");
        append_decimal(&mut text, self.neural_layers.len());
        text.append("] neural layers");
        text
    }
}

} // verus!
