use vstd::prelude::*;
use crate::errors::SNNError;
use crate::input_layer::{parsed, InputLayerState};
use crate::layer_state::{lemma_layer_step_keeps_shape, lemma_silence_in_silence_out, LayerState};
use crate::neural_layer::rows;
use crate::neural_network::Topology;
use crate::neuron::NeuronState;
use crate::output::MonitorState;
use crate::spike::{all_binary, all_silent, Spike};
use crate::text::decimal;

verus! {

/// A network as plain values. The link into layer `l` has the number `l`;
/// the link into the output monitor has the number of layers.
pub struct NetworkState {
    pub input_layer: Option<InputLayerState>,
    pub layers: Seq<LayerState>,
    pub output_monitor: Option<MonitorState>,
}

/// The matrices of all layers as sequences.
pub open spec fn matrices(m: Seq<Vec<Vec<i64>>>) -> Seq<Seq<Seq<i64>>> {
    Seq::new(m.len(), |l: int| rows(m[l]@))
}

/// The description of a network agrees with itself: there are as many
/// matrices of either kind as layers, the matrices of each layer fit its
/// neurons, and each layer but the first has one column of weights for each
/// neuron of the layer before.
pub open spec fn consistent(
    thresholds: Seq<Seq<i64>>,
    intra_layer_weights: Seq<Seq<Seq<i64>>>,
    input_weights: Seq<Seq<Seq<i64>>>,
) -> bool {
    &&& intra_layer_weights.len() == thresholds.len()
    &&& input_weights.len() == thresholds.len()
    &&& forall|l: int|
        0 <= l < thresholds.len() ==> LayerState::fits(
            (#[trigger] thresholds[l]).len(),
            intra_layer_weights[l],
            input_weights[l],
        )
    &&& forall|l: int|
        1 <= l < thresholds.len() ==> (#[trigger] input_weights[l])[0].len() == thresholds[l
            - 1].len()
}

impl NetworkState {
    /// The layers are complete and tick together, each takes what the one
    /// before emits, and the stages at both ends fit the layers they touch.
    pub open spec fn wf(self) -> bool {
        &&& chain_wf(self.layers)
        &&& self.input_layer matches Some(sources) ==> {
            &&& sources.wf()
            &&& self.layers.len() > 0
            &&& sources.inputs.len() == self.layers[0].n_inputs
            &&& sources.inputs.len() > 0
        }
        &&& self.output_monitor matches Some(monitor) ==> {
            &&& self.layers.len() > 0
            &&& monitor.outputs.len() == self.layers.last().size
        }
    }

    /// The network that a consistent description stands for, nothing wired.
    pub open spec fn built(
        v_rest: i64,
        v_reset: i64,
        tau: i64,
        thresholds: Seq<Seq<i64>>,
        intra_layer_weights: Seq<Seq<Seq<i64>>>,
        input_weights: Seq<Seq<Seq<i64>>>,
    ) -> Self {
        NetworkState {
            input_layer: None,
            layers: Seq::new(
                thresholds.len(),
                |l: int|
                    LayerState::built(
                        v_rest,
                        v_reset,
                        tau,
                        thresholds[l],
                        intra_layer_weights[l],
                        input_weights[l],
                    ),
            ),
            output_monitor: None,
        }
    }

    /// The two layers exist, and the second has one column of weights for
    /// each neuron of the first.
    pub open spec fn can_connect(self, from: int, to: int) -> Result<(), SNNError> {
        if !(0 <= from < self.layers.len() && 0 <= to < self.layers.len()) {
            Err(SNNError::IndexOutOfRange)
        } else if self.layers[from].size != self.layers[to].n_inputs {
            Err(SNNError::ConfigError)
        } else {
            Ok(())
        }
    }

    /// The network with the link into layer `to` attached at both its ends.
    pub open spec fn connected(self, from: int, to: int) -> Self {
        let link = to as usize;
        let entered = self.layers.update(to, self.layers[to].linked(link, true));
        NetworkState { layers: entered.update(from, entered[from].linked(link, false)), ..self }
    }

    /// Whether the sources can feed the first layer.
    pub open spec fn can_connect_input(self, sources: InputLayerState) -> Result<(), SNNError> {
        if self.layers.len() == 0 {
            Err(SNNError::IndexOutOfRange)
        } else if sources.inputs.len() == 0 {
            Err(SNNError::EmptyInputSet)
        } else if sources.inputs.len() != self.layers[0].n_inputs {
            Err(SNNError::ConfigError)
        } else {
            Ok(())
        }
    }

    /// The network with the sources attached to the first layer by link 0.
    pub open spec fn with_input(self, sources: InputLayerState) -> Self {
        NetworkState {
            input_layer: Some(sources.linked(0)),
            layers: self.layers.update(0, self.layers[0].linked(0, true)),
            ..self
        }
    }

    /// Whether the monitor can listen to the last layer.
    pub open spec fn can_connect_output(self, monitor: MonitorState) -> Result<(), SNNError> {
        if self.layers.len() == 0 {
            Err(SNNError::IndexOutOfRange)
        } else if monitor.outputs.len() != self.layers.last().size {
            Err(SNNError::ConfigError)
        } else {
            Ok(())
        }
    }

    /// The network with the monitor attached to the last layer.
    pub open spec fn with_output(self, monitor: MonitorState) -> Self {
        let last = self.layers.len() - 1;
        let link = self.layers.len() as usize;
        NetworkState {
            output_monitor: Some(
                MonitorState { receivers: monitor.receivers.push(link), ..monitor },
            ),
            layers: self.layers.update(last, self.layers[last].linked(link, false)),
            ..self
        }
    }

    /// Sources, layers and monitor form one chain: every stage is attached
    /// to the link that comes in and to the link that goes out.
    pub open spec fn wired(self) -> bool {
        &&& self.input_layer matches Some(sources) && sources.all_wired()
        &&& self.output_monitor matches Some(monitor) && monitor.receivers.len() > 0
        &&& forall|l: int|
            0 <= l < self.layers.len() ==> {
                &&& (#[trigger] self.layers[l]).wired()
                &&& self.layers[l].receiver == Some(l as usize)
                &&& self.layers[l].sender == Some((l + 1) as usize)
            }
    }

    /// The network with every layer told whether its neurons listen to
    /// their own last output.
    pub open spec fn inhibiting(self, allowed: bool) -> Self {
        NetworkState {
            layers: Seq::new(
                self.layers.len(),
                |l: int| LayerState { self_inhibition: allowed, ..self.layers[l] },
            ),
            ..self
        }
    }

    /// The network with each of its first `upto` layers wired to the next.
    pub open spec fn chained(self, upto: int) -> Self
        decreases upto,
    {
        if upto <= 0 {
            self
        } else {
            self.chained(upto - 1).connected(upto - 1, upto)
        }
    }

    /// The network wired into one chain from the given sources to a fresh
    /// monitor, or the reason why the sources cannot feed it.
    pub open spec fn wired_up(self, sources: InputLayerState) -> Result<Self, SNNError> {
        match self.can_connect_input(sources) {
            Err(e) => Err(e),
            Ok(()) => {
                let fed = self.with_input(sources);
                let chained = fed.chained(fed.layers.len() - 1);
                Ok(chained.with_output(MonitorState::fresh(chained.layers.last().size)))
            },
        }
    }

    /// The network in words, where it has its sources.
    pub open spec fn described(self) -> Seq<char> {
        "Neural Network with:\n\t- "@ + self.input_layer->Some_0.described() + "\n\t- ["@
            + decimal(self.layers.len()) + "] neural layers"@
    }

    /// The number of batches that the sources emit before they close.
    pub open spec fn duration(self) -> int {
        match self.input_layer {
            Some(sources) => sources.duration() as int,
            None => 0,
        }
    }

    /// Neither a clock nor a count overflows within `k` more ticks.
    pub open spec fn room_for(self, k: int) -> bool {
        &&& self.layers.len() > 0 ==> 0 <= self.layers[0].tick && self.layers[0].tick + k
            <= i32::MAX
        &&& self.output_monitor matches Some(monitor) ==> monitor.room_for(k)
    }

    /// One tick of the layers on a batch; sources and monitor stay as they are.
    pub open spec fn steps_to<F: Fn(i32, i32, i64, i64, i64, Vec<i64>) -> i64>(
        self,
        model: F,
        batch: Seq<Spike>,
        next: Self,
    ) -> bool {
        &&& chain_steps(model, self.layers, batch, next.layers)
        &&& next.input_layer == self.input_layer
        &&& next.output_monitor == self.output_monitor
    }

    /// A whole run along `trace`: the layers take every batch of the sources
    /// in turn, and the monitor counts each tick and each spike of the last
    /// layer.
    pub open spec fn runs_to<F: Fn(i32, i32, i64, i64, i64, Vec<i64>) -> i64>(
        self,
        model: F,
        trace: Seq<Seq<LayerState>>,
        next: Self,
    ) -> bool {
        let k = self.duration();
        &&& self.input_layer matches Some(sources)
        &&& follows(model, sources, trace, k)
        &&& trace[0] == self.layers
        &&& trace[k] == next.layers
        &&& next.input_layer == self.input_layer
        &&& self.output_monitor matches Some(before)
        &&& next.output_monitor matches Some(after)
        &&& after.receivers == before.receivers
        &&& after.ts == before.ts + k
        &&& after.outputs.len() == before.outputs.len()
        &&& forall|i: int|
            0 <= i < after.outputs.len() ==> #[trigger] after.outputs[i] == before.outputs[i]
                + fired(trace, i, k)
    }
}

impl Topology {
    /// The description agrees with itself.
    pub open spec fn consistent(self) -> bool {
        consistent(
            rows(self.thresholds@),
            matrices(self.intra_layer_weights@),
            matrices(self.input_weights@),
        )
    }

    /// The layers that the description stands for, nothing wired.
    pub open spec fn built(self) -> NetworkState {
        NetworkState::built(
            self.rest_potential,
            self.reset_potential,
            self.tau,
            rows(self.thresholds@),
            matrices(self.intra_layer_weights@),
            matrices(self.input_weights@),
        ).inhibiting(self.self_inhibition)
    }

    /// The network that the description and the text of the input lines
    /// stand for, wired from the sources to the monitor, or the reason why
    /// they stand for none.
    pub open spec fn assembled(self, text: Seq<u8>, delimiter: u8) -> Result<NetworkState, SNNError> {
        if !self.consistent() {
            Err(SNNError::ConfigError)
        } else {
            match parsed(text, delimiter) {
                Err(e) => Err(e),
                Ok(sources) => self.built().wired_up(sources),
            }
        }
    }

    /// Two descriptions say the same.
    pub open spec fn same_as(self, other: Self) -> bool {
        &&& rows(self.thresholds@) == rows(other.thresholds@)
        &&& matrices(self.intra_layer_weights@) == matrices(other.intra_layer_weights@)
        &&& matrices(self.input_weights@) == matrices(other.input_weights@)
        &&& self.rest_potential == other.rest_potential
        &&& self.reset_potential == other.reset_potential
        &&& self.tau == other.tau
        &&& self.self_inhibition == other.self_inhibition
    }
}

/// What layer `l` receives at a tick: the batch of the sources for the first
/// layer, for every other layer what the layer before has just emitted.
pub open spec fn feed(batch: Seq<Spike>, after: Seq<LayerState>, l: int) -> Seq<Spike> {
    if l == 0 {
        batch
    } else {
        after[l - 1].last_output
    }
}

/// One tick of a chain of layers: each layer takes one step on what it
/// receives.
pub open spec fn chain_steps<F: Fn(i32, i32, i64, i64, i64, Vec<i64>) -> i64>(
    model: F,
    before: Seq<LayerState>,
    batch: Seq<Spike>,
    after: Seq<LayerState>,
) -> bool {
    &&& after.len() == before.len()
    &&& forall|l: int|
        0 <= l < before.len() ==> (#[trigger] before[l]).steps_to(
            model,
            feed(batch, after, l),
            after[l],
            after[l].last_output,
        )
}

/// A chain of complete layers that tick together, each taking what the one
/// before emits.
pub open spec fn chain_wf(layers: Seq<LayerState>) -> bool {
    &&& forall|l: int|
        0 <= l < layers.len() ==> {
            &&& (#[trigger] layers[l]).wf()
            &&& layers[l].complete()
            &&& layers[l].tick == layers[0].tick
        }
    &&& forall|l: int|
        1 <= l < layers.len() ==> (#[trigger] layers[l]).n_inputs == layers[l - 1].size
}

/// `trace` lists the layers of a network before each of its first `k` ticks
/// and after the last of them, the sources feeding one batch per tick.
pub open spec fn follows<F: Fn(i32, i32, i64, i64, i64, Vec<i64>) -> i64>(
    model: F,
    sources: InputLayerState,
    trace: Seq<Seq<LayerState>>,
    k: int,
) -> bool {
    &&& trace.len() == k + 1
    &&& forall|t: int|
        0 <= t < k ==> chain_steps(model, #[trigger] trace[t], sources.batch(t), trace[t + 1])
}

/// How often neuron `i` of the last layer fires in the first `k` ticks of a
/// trace.
pub open spec fn fired(trace: Seq<Seq<LayerState>>, i: int, k: int) -> int
    decreases k,
{
    if k <= 0 {
        0
    } else {
        fired(trace, i, k - 1) + trace[k].last().last_output[i].output
    }
}

/// How often a neuron fires in the first `k` ticks depends on no later tick.
pub proof fn lemma_fired_reads_prefix(
    a: Seq<Seq<LayerState>>,
    b: Seq<Seq<LayerState>>,
    i: int,
    k: int,
)
    requires
        k < a.len(),
        k < b.len(),
        forall|t: int| 0 <= t <= k ==> a[t] == b[t],
    ensures
        fired(a, i, k) == fired(b, i, k),
    decreases k,
{
    if k > 0 {
        lemma_fired_reads_prefix(a, b, i, k - 1);
    }
}

/// Wiring the first `upto` layers each to the next attaches to every layer
/// up to `upto` the link that comes in, and to every layer before it the
/// link that goes out. Nothing else changes.
pub proof fn lemma_chained_links(network: NetworkState, upto: int)
    requires
        0 <= upto < network.layers.len(),
    ensures
        network.chained(upto).layers.len() == network.layers.len(),
        network.chained(upto).input_layer == network.input_layer,
        network.chained(upto).output_monitor == network.output_monitor,
        forall|l: int|
            0 <= l < network.layers.len() ==> (#[trigger] network.chained(upto).layers[l])
                == (LayerState {
                receiver: if 1 <= l <= upto {
                    Some(l as usize)
                } else {
                    network.layers[l].receiver
                },
                barrier_in: if 1 <= l <= upto {
                    Some(l as usize)
                } else {
                    network.layers[l].barrier_in
                },
                sender: if l < upto {
                    Some((l + 1) as usize)
                } else {
                    network.layers[l].sender
                },
                barrier_out: if l < upto {
                    Some((l + 1) as usize)
                } else {
                    network.layers[l].barrier_out
                },
                ..network.layers[l]
            }),
    decreases upto,
{
    if upto > 0 {
        lemma_chained_links(network, upto - 1);
    }
}

/// A network that is wired up forms one chain.
pub proof fn lemma_wired_up_is_wired(bare: NetworkState, sources: InputLayerState)
    requires
        bare.can_connect_input(sources) is Ok,
    ensures
        bare.wired_up(sources) matches Ok(network) && network.wired(),
{
    let fed = bare.with_input(sources);
    let n = fed.layers.len() as int;
    let chained = fed.chained(n - 1);
    let network = chained.with_output(MonitorState::fresh(chained.layers.last().size));
    lemma_chained_links(fed, n - 1);
    assert(network.output_monitor->Some_0.receivers.len() > 0);
    assert(network.input_layer == Some(sources.linked(0)));
    assert(sources.linked(0).all_wired()) by {
        assert forall|i: int| 0 <= i < sources.linked(0).inputs.len() implies (
        #[trigger] sources.linked(0).inputs[i]).senders.len() > 0 by {}
    }
    assert forall|l: int| 0 <= l < network.layers.len() implies {
        &&& (#[trigger] network.layers[l]).wired()
        &&& network.layers[l].receiver == Some(l as usize)
        &&& network.layers[l].sender == Some((l + 1) as usize)
    } by {
        let linked = chained.layers[l];
        assert(linked.receiver == Some(l as usize));
        assert(linked.barrier_in == Some(l as usize));
        if l < n - 1 {
            assert(linked.sender == Some((l + 1) as usize));
            assert(network.layers[l] == linked);
        }
    }
}

/// The stages make the tick together: when every layer has taken one step
/// on what it received, the first layer having received the batch of the
/// sources and every other layer what the layer before sent, then the
/// chain has made one tick, in whatever order in time the layers ran.
pub proof fn lemma_stages_make_a_tick<F: Fn(i32, i32, i64, i64, i64, Vec<i64>) -> i64>(
    model: F,
    before: Seq<LayerState>,
    batch: Seq<Spike>,
    received: Seq<Seq<Spike>>,
    sent: Seq<Seq<Spike>>,
    after: Seq<LayerState>,
)
    requires
        after.len() == before.len(),
        received.len() == before.len(),
        sent.len() == before.len(),
        forall|l: int|
            0 <= l < before.len() ==> (#[trigger] before[l]).steps_to(
                model,
                received[l],
                after[l],
                sent[l],
            ),
        before.len() > 0 ==> received[0] == batch,
        forall|l: int| 1 <= l < before.len() ==> #[trigger] received[l] == sent[l - 1],
    ensures
        chain_steps(model, before, batch, after),
        forall|l: int| 0 <= l < before.len() ==> (#[trigger] after[l]).last_output == sent[l],
{
    assert forall|l: int| 0 <= l < before.len() implies (#[trigger] after[l]).last_output
        == sent[l] by {
        assert(before[l].steps_to(model, received[l], after[l], sent[l]));
    }
    assert forall|l: int| 0 <= l < before.len() implies (#[trigger] before[l]).steps_to(
        model,
        feed(batch, after, l),
        after[l],
        after[l].last_output,
    ) by {
        assert(before[l].steps_to(model, received[l], after[l], sent[l]));
        if l > 0 {
            assert(received[l] == sent[l - 1]);
            assert(after[l - 1].last_output == sent[l - 1]);
        }
    }
}

/// A tick keeps a chain of layers in shape, and moves every clock by one.
pub proof fn lemma_chain_step_keeps_shape<F: Fn(i32, i32, i64, i64, i64, Vec<i64>) -> i64>(
    model: F,
    before: Seq<LayerState>,
    batch: Seq<Spike>,
    after: Seq<LayerState>,
)
    requires
        chain_wf(before),
        before.len() > 0,
        before[0].tick < i32::MAX,
        chain_steps(model, before, batch, after),
    ensures
        chain_wf(after),
        after.len() == before.len(),
        forall|l: int| 0 <= l < after.len() ==> (#[trigger] after[l]).tick == before[0].tick + 1,
        forall|l: int, p: int|
            0 <= l < after.len() && 0 <= p < after[l].neurons.len() ==> (
            #[trigger] after[l].neurons[p]).local_tick == before[0].tick + 1,
{
    assert forall|l: int| 0 <= l < after.len() implies {
        &&& (#[trigger] after[l]).wf()
        &&& after[l].complete()
        &&& after[l].tick == before[0].tick + 1
        &&& after[l].size == before[l].size
        &&& after[l].n_inputs == before[l].n_inputs
        &&& forall|p: int|
            0 <= p < after[l].neurons.len() ==> (#[trigger] after[l].neurons[p]).local_tick
                == before[0].tick + 1
    } by {
        assert(before[l].wf() && before[l].tick == before[0].tick);
        lemma_layer_step_keeps_shape(
            model,
            before[l],
            feed(batch, after, l),
            after[l],
            after[l].last_output,
        );
    }
    assert forall|l: int| 1 <= l < after.len() implies (#[trigger] after[l]).n_inputs == after[l
        - 1].size by {
        assert(before[l].n_inputs == before[l - 1].size);
        assert(after[l - 1].size == before[l - 1].size);
    }
    assert(after[0].tick == before[0].tick + 1);
}

/// Lock-step: after `n` batches have gone through a chain of layers whose
/// clocks agree, the clock of every neuron of every layer has moved on by
/// exactly `n`.
pub proof fn lemma_clocks_in_lock_step<F: Fn(i32, i32, i64, i64, i64, Vec<i64>) -> i64>(
    model: F,
    sources: InputLayerState,
    trace: Seq<Seq<LayerState>>,
    n: int,
)
    requires
        0 <= n,
        follows(model, sources, trace, n),
        chain_wf(trace[0]),
        trace[0].len() > 0,
        trace[0][0].tick + n <= i32::MAX,
    ensures
        chain_wf(trace[n]),
        trace[n].len() == trace[0].len(),
        forall|l: int| 0 <= l < trace[n].len() ==> (#[trigger] trace[n][l]).tick == trace[0][0].tick + n,
        forall|l: int, p: int|
            0 <= l < trace[n].len() && 0 <= p < trace[n][l].neurons.len() ==> (
            #[trigger] trace[n][l].neurons[p]).local_tick == trace[0][0].tick + n,
    decreases n,
{
    if n == 0 {
        assert forall|l: int, p: int|
            0 <= l < trace[0].len() && 0 <= p < trace[0][l].neurons.len() implies (
        #[trigger] trace[0][l].neurons[p]).local_tick == trace[0][0].tick by {
            assert(trace[0][l].wf());
        }
    } else {
        let shorter = trace.take(n);
        assert forall|t: int| 0 <= t < n - 1 implies chain_steps(
            model,
            #[trigger] shorter[t],
            sources.batch(t),
            shorter[t + 1],
        ) by {
            assert(chain_steps(model, trace[t], sources.batch(t), trace[t + 1]));
        }
        lemma_clocks_in_lock_step(model, sources, shorter, n - 1);
        assert(shorter[n - 1] == trace[n - 1]);
        assert(shorter[0] == trace[0]);
        assert(chain_steps(model, trace[n - 1], sources.batch(n - 1), trace[n]));
        assert(trace[n - 1][0].tick == trace[0][0].tick + n - 1);
        lemma_chain_step_keeps_shape(model, trace[n - 1], sources.batch(n - 1), trace[n]);
    }
}

/// Silence runs through the whole chain: when the batch of the sources and
/// the last output of every layer are silent, and every layer is quiet
/// under the model, every layer emits silence.
pub proof fn lemma_silence_runs_through<F: Fn(i32, i32, i64, i64, i64, Vec<i64>) -> i64>(
    model: F,
    before: Seq<LayerState>,
    batch: Seq<Spike>,
    after: Seq<LayerState>,
    upto: int,
)
    requires
        chain_wf(before),
        before.len() > 0,
        before[0].takes(batch),
        before[0].tick < i32::MAX,
        chain_steps(model, before, batch, after),
        all_silent(batch),
        forall|l: int| 0 <= l < before.len() ==> all_silent((#[trigger] before[l]).last_output),
        forall|l: int| 0 <= l < before.len() ==> (#[trigger] before[l]).quiet_under(model),
        0 <= upto <= before.len(),
    ensures
        forall|l: int| 0 <= l < upto ==> all_silent((#[trigger] after[l]).last_output),
    decreases upto,
{
    if upto > 0 {
        lemma_silence_runs_through(model, before, batch, after, upto - 1);
        let l = upto - 1;
        let fed = feed(batch, after, l);
        assert(before[l].steps_to(model, fed, after[l], after[l].last_output));
        assert(before[l].wf() && before[l].complete());
        if l > 0 {
            assert(before[l].n_inputs == before[l - 1].size);
            assert(before[l - 1].wf());
            lemma_layer_step_keeps_shape(
                model,
                before[l - 1],
                feed(batch, after, l - 1),
                after[l - 1],
                after[l - 1].last_output,
            );
            assert(after[l - 1].wf());
            assert(all_silent(after[l - 1].last_output));
            assert(all_binary(fed)) by {
                assert forall|i: int| 0 <= i < fed.len() implies (#[trigger] fed[i]).is_binary() by {
                    assert(fed[i].output == 0);
                }
            }
        }
        lemma_silence_in_silence_out(model, before[l], fed, after[l], after[l].last_output);
    }
}

/// Within `n` ticks a neuron of the last layer fires at most `n` times: no
/// count of the monitor grows by less than nothing or by more than the
/// number of batches.
pub proof fn lemma_fires_at_most_once_a_tick<F: Fn(i32, i32, i64, i64, i64, Vec<i64>) -> i64>(
    model: F,
    sources: InputLayerState,
    trace: Seq<Seq<LayerState>>,
    n: int,
    i: int,
)
    requires
        0 <= n,
        follows(model, sources, trace, n),
        chain_wf(trace[0]),
        trace[0].len() > 0,
        trace[0][0].tick + n <= i32::MAX,
        0 <= i < trace[0].last().size,
    ensures
        0 <= fired(trace, i, n) <= n,
    decreases n,
{
    if n > 0 {
        let shorter = trace.take(n);
        assert forall|t: int| 0 <= t < n - 1 implies chain_steps(
            model,
            #[trigger] shorter[t],
            sources.batch(t),
            shorter[t + 1],
        ) by {
            assert(chain_steps(model, trace[t], sources.batch(t), trace[t + 1]));
        }
        assert(shorter[0] == trace[0]);
        lemma_fires_at_most_once_a_tick(model, sources, shorter, n - 1, i);
        lemma_fired_reads_prefix(shorter, trace, i, n - 1);
        lemma_clocks_in_lock_step(model, sources, trace, n);
        lemma_clocks_in_lock_step(model, sources, shorter, n - 1);
        assert(shorter[n - 1] == trace[n - 1]);
        assert(chain_steps(model, trace[n - 1], sources.batch(n - 1), trace[n]));
        let last = trace[n].len() - 1;
        assert(trace[n][last].wf() && trace[n][last].complete());
        lemma_sizes_stay(model, sources, trace, n);
        assert(trace[n][last].last_output[i].is_binary());
    }
}

/// The layers of a chain keep their sizes.
pub proof fn lemma_sizes_stay<F: Fn(i32, i32, i64, i64, i64, Vec<i64>) -> i64>(
    model: F,
    sources: InputLayerState,
    trace: Seq<Seq<LayerState>>,
    n: int,
)
    requires
        0 <= n,
        follows(model, sources, trace, n),
    ensures
        trace[n].len() == trace[0].len(),
        forall|l: int| 0 <= l < trace[0].len() ==> (#[trigger] trace[n][l]).size == trace[0][l].size,
    decreases n,
{
    if n > 0 {
        let shorter = trace.take(n);
        assert forall|t: int| 0 <= t < n - 1 implies chain_steps(
            model,
            #[trigger] shorter[t],
            sources.batch(t),
            shorter[t + 1],
        ) by {
            assert(chain_steps(model, trace[t], sources.batch(t), trace[t + 1]));
        }
        lemma_sizes_stay(model, sources, shorter, n - 1);
        assert(shorter[0] == trace[0]);
        assert(shorter[n - 1] == trace[n - 1]);
        assert(chain_steps(model, trace[n - 1], sources.batch(n - 1), trace[n]));
        assert forall|l: int| 0 <= l < trace[0].len() implies (#[trigger] trace[n][l]).size
            == trace[0][l].size by {
            assert(trace[n - 1][l].steps_to(
                model,
                feed(sources.batch(n - 1), trace[n], l),
                trace[n][l],
                trace[n][l].last_output,
            ));
            assert(trace[n - 1][l].size == trace[0][l].size);
        }
    }
}

/// After a run no count of the monitor has grown by more than the number of
/// batches that the sources held, and none has shrunk: a monitor that
/// started at zero returns counts between zero and that number.
pub proof fn lemma_counts_within_batches<F: Fn(i32, i32, i64, i64, i64, Vec<i64>) -> i64>(
    model: F,
    before: NetworkState,
    trace: Seq<Seq<LayerState>>,
    after: NetworkState,
)
    requires
        before.wf(),
        before.room_for(before.duration()),
        before.runs_to(model, trace, after),
    ensures
        forall|i: int|
            0 <= i < after.output_monitor->Some_0.outputs.len() ==> before.output_monitor->Some_0.outputs[i]
                <= #[trigger] after.output_monitor->Some_0.outputs[i]
                <= before.output_monitor->Some_0.outputs[i] + before.duration(),
{
    let k = before.duration();
    let sources = before.input_layer->Some_0;
    let counts = after.output_monitor->Some_0.outputs;
    assert forall|i: int| 0 <= i < counts.len() implies before.output_monitor->Some_0.outputs[i]
        <= #[trigger] counts[i] <= before.output_monitor->Some_0.outputs[i] + k by {
        lemma_fires_at_most_once_a_tick(model, sources, trace, k, i);
    }
}

/// With a single source, the monitor has taken in exactly as many batches
/// as the source holds values when the source closes.
pub proof fn lemma_monitor_sees_every_batch<F: Fn(i32, i32, i64, i64, i64, Vec<i64>) -> i64>(
    model: F,
    before: NetworkState,
    trace: Seq<Seq<LayerState>>,
    after: NetworkState,
)
    requires
        before.runs_to(model, trace, after),
        before.input_layer matches Some(sources) && sources.inputs.len() == 1,
    ensures
        before.duration() == before.input_layer->Some_0.inputs[0].spikes.len(),
        after.output_monitor->Some_0.ts == before.output_monitor->Some_0.ts
            + before.input_layer->Some_0.inputs[0].spikes.len(),
        trace.len() == before.input_layer->Some_0.inputs[0].spikes.len() + 1,
{
}

/// Assembling twice from descriptions that say the same, on the same input
/// text, gives the same network or the same refusal.
pub proof fn lemma_assembly_is_repeatable(
    first: Topology,
    second: Topology,
    text: Seq<u8>,
    delimiter: u8,
)
    requires
        first.same_as(second),
    ensures
        first.assembled(text, delimiter) == second.assembled(text, delimiter),
{
}

/// An assembled network holds the description that it was assembled from:
/// every neuron has its threshold, the shared potentials and time constant,
/// and every layer its two matrices.
pub proof fn lemma_assembly_keeps_description(topology: Topology, text: Seq<u8>, delimiter: u8)
    requires
        topology.assembled(text, delimiter) is Ok,
    ensures
        ({
            let network = topology.assembled(text, delimiter)->Ok_0;
            &&& network.layers.len() == topology.thresholds@.len()
            &&& forall|l: int|
                0 <= l < network.layers.len() ==> {
                    &&& (#[trigger] network.layers[l]).excitatory == rows(
                        topology.input_weights@[l]@,
                    )
                    &&& network.layers[l].inhibitory == rows(topology.intra_layer_weights@[l]@)
                    &&& network.layers[l].self_inhibition == topology.self_inhibition
                    &&& network.layers[l].neurons.len() == topology.thresholds@[l]@.len()
                }
            &&& forall|l: int, p: int|
                0 <= l < network.layers.len() && 0 <= p < network.layers[l].neurons.len() ==> (
                #[trigger] network.layers[l].neurons[p]) == NeuronState::fresh(
                    topology.thresholds@[l]@[p],
                    topology.rest_potential,
                    topology.reset_potential,
                    topology.tau,
                    p as i32,
                )
        }),
{
    let sources = parsed(text, delimiter)->Ok_0;
    let bare = topology.built();
    let fed = bare.with_input(sources);
    let n = fed.layers.len() as int;
    lemma_chained_links(fed, n - 1);
    let chained = fed.chained(n - 1);
    let network = topology.assembled(text, delimiter)->Ok_0;
    assert(network == chained.with_output(MonitorState::fresh(chained.layers.last().size)));
    assert forall|l: int| 0 <= l < network.layers.len() implies {
        &&& (#[trigger] network.layers[l]).excitatory == rows(topology.input_weights@[l]@)
        &&& network.layers[l].inhibitory == rows(topology.intra_layer_weights@[l]@)
        &&& network.layers[l].self_inhibition == topology.self_inhibition
        &&& network.layers[l].neurons.len() == topology.thresholds@[l]@.len()
        &&& network.layers[l].neurons == bare.layers[l].neurons
    } by {
        let linked = chained.layers[l];
        assert(linked.neurons == fed.layers[l].neurons);
        assert(fed.layers[l].neurons == bare.layers[l].neurons);
    }
    assert forall|l: int, p: int|
        0 <= l < network.layers.len() && 0 <= p < network.layers[l].neurons.len() implies (
    #[trigger] network.layers[l].neurons[p]) == NeuronState::fresh(
        topology.thresholds@[l]@[p],
        topology.rest_potential,
        topology.reset_potential,
        topology.tau,
        p as i32,
    ) by {
        assert(network.layers[l].neurons == bare.layers[l].neurons);
    }
}

/// Telling the layers whether they listen to themselves changes nothing
/// that the shape of the layers rests on.
pub proof fn lemma_flag_keeps_shape(before: NetworkState, after: NetworkState)
    requires
        before.wf(),
        after.layers.len() == before.layers.len(),
        forall|l: int|
            0 <= l < before.layers.len() ==> (#[trigger] after.layers[l]) == (LayerState {
                self_inhibition: after.layers[l].self_inhibition,
                ..before.layers[l]
            }),
    ensures
        chain_wf(after.layers),
{
    assert forall|l: int| 0 <= l < after.layers.len() implies {
        &&& (#[trigger] after.layers[l]).wf()
        &&& after.layers[l].complete()
        &&& after.layers[l].tick == after.layers[0].tick
    } by {
        assert(before.layers[l].wf());
        assert(before.layers[0].wf());
    }
    assert forall|l: int| 1 <= l < after.layers.len() implies (#[trigger] after.layers[l]).n_inputs
        == after.layers[l - 1].size by {
        assert(before.layers[l].n_inputs == before.layers[l - 1].size);
    }
}

/// Attaching links changes nothing that the shape of the layers rests on.
pub proof fn lemma_linking_keeps_shape(before: NetworkState, after: NetworkState)
    requires
        before.wf(),
        after.layers.len() == before.layers.len(),
        forall|l: int|
            0 <= l < before.layers.len() ==> (#[trigger] after.layers[l]) == (LayerState {
                receiver: after.layers[l].receiver,
                sender: after.layers[l].sender,
                barrier_in: after.layers[l].barrier_in,
                barrier_out: after.layers[l].barrier_out,
                ..before.layers[l]
            }),
    ensures
        chain_wf(after.layers),
{
    assert forall|l: int| 0 <= l < after.layers.len() implies {
        &&& (#[trigger] after.layers[l]).wf()
        &&& after.layers[l].complete()
        &&& after.layers[l].tick == after.layers[0].tick
    } by {
        assert(before.layers[l].wf());
        assert(before.layers[0].wf());
    }
    assert forall|l: int| 1 <= l < after.layers.len() implies (#[trigger] after.layers[l]).n_inputs
        == after.layers[l - 1].size by {
        assert(before.layers[l].n_inputs == before.layers[l - 1].size);
    }
}

} // verus!
