use vstd::prelude::*;
use crate::neuron::{
    all_zero, lemma_decay_keeps_quiet, lemma_zeros_cause_no_spike, lemma_zeros_keep_below,
    model_only_decays, NeuronState,
};
use crate::spike::{all_binary, all_silent, Spike};
use crate::synapse::Synapse;

verus! {

/// A layer as plain values.
pub struct LayerState {
    /// The neurons added so far, by position.
    pub neurons: Seq<NeuronState>,
    /// The number of neurons that the layer is laid out for.
    pub size: nat,
    /// The number of sources in the stage before.
    pub n_inputs: nat,
    /// `excitatory[p][s]`: the weight from source `s` of the stage before to
    /// neuron `p`.
    pub excitatory: Seq<Seq<i64>>,
    /// `inhibitory[p][s]`: the weight from what neuron `s` of this layer
    /// emitted at the tick before to neuron `p`.
    pub inhibitory: Seq<Seq<i64>>,
    /// Whether `inhibitory[p][p]` counts.
    pub self_inhibition: bool,
    /// What the layer emitted at the tick before, all zero before the first.
    pub last_output: Seq<Spike>,
    /// The number of batches processed.
    pub tick: i32,
    /// The inbound and outbound links, and the links whose barrier the layer
    /// waits at on either side.
    pub receiver: Option<usize>,
    pub sender: Option<usize>,
    pub barrier_in: Option<usize>,
    pub barrier_out: Option<usize>,
}

/// `m` has `rows` rows of `cols` weights each.
pub open spec fn is_matrix(m: Seq<Seq<i64>>, rows: nat, cols: nat) -> bool {
    m.len() == rows && forall|p: int| 0 <= p < rows ==> (#[trigger] m[p]).len() == cols
}

/// The contributions that a row of weights draws from a batch: one for each
/// source with a weight other than zero, in the order of the sources. The
/// source `skipped`, if there is one, is left out.
pub open spec fn weighted(weights: Seq<i64>, spikes: Seq<Spike>, skipped: int) -> Seq<i64>
    decreases weights.len(),
{
    if weights.len() == 0 {
        Seq::empty()
    } else {
        let s = weights.len() - 1;
        let before = weighted(weights.drop_last(), spikes, skipped);
        if weights[s] != 0 && s != skipped {
            before.push(Synapse::contribution(weights[s], spikes[s]) as i64)
        } else {
            before
        }
    }
}

/// The sum of a sequence of contributions.
pub open spec fn total(contributions: Seq<i64>) -> int
    decreases contributions.len(),
{
    if contributions.len() == 0 {
        0
    } else {
        total(contributions.drop_last()) + contributions.last()
    }
}

/// The weighted sum of a batch over the first `upto` sources of a row, the
/// source `skipped` left out.
pub open spec fn weighted_sum(weights: Seq<i64>, spikes: Seq<Spike>, skipped: int, upto: int) -> int
    decreases upto,
{
    if upto <= 0 {
        0
    } else {
        weighted_sum(weights, spikes, skipped, upto - 1) + if upto - 1 != skipped {
            weights[upto - 1] * spikes[upto - 1].output
        } else {
            0
        }
    }
}

impl LayerState {
    /// The matrices fit the layout, and the neurons added so far stand at
    /// their positions and agree on the tick.
    pub open spec fn wf(self) -> bool {
        &&& 0 < self.size <= i32::MAX
        &&& self.neurons.len() <= self.size
        &&& is_matrix(self.excitatory, self.size, self.n_inputs)
        &&& is_matrix(self.inhibitory, self.size, self.size)
        &&& self.last_output.len() == self.neurons.len()
        &&& forall|p: int|
            0 <= p < self.neurons.len() ==> {
                &&& (#[trigger] self.neurons[p]).position == p
                &&& self.neurons[p].local_tick == self.tick
            }
        &&& forall|p: int|
            0 <= p < self.last_output.len() ==> {
                &&& (#[trigger] self.last_output[p]).is_binary()
                &&& self.last_output[p].n_neuron == Some(p as i32)
            }
    }

    /// Every neuron that the layer is laid out for has been added.
    pub open spec fn complete(self) -> bool {
        self.neurons.len() == self.size
    }

    /// The batch has one binary spike for each source of the stage before.
    pub open spec fn takes(self, batch: Seq<Spike>) -> bool {
        batch.len() == self.n_inputs && all_binary(batch)
    }

    /// Both endpoints and both barriers are attached, each barrier to the
    /// link of its side.
    pub open spec fn wired(self) -> bool {
        &&& self.receiver is Some
        &&& self.sender is Some
        &&& self.barrier_in == self.receiver
        &&& self.barrier_out == self.sender
    }

    /// The position that neuron `p` does not listen to among its own layer.
    pub open spec fn deaf_to(self, p: int) -> int {
        if self.self_inhibition {
            -1
        } else {
            p
        }
    }

    /// What neuron `p` receives at a tick: first from the batch of the stage
    /// before, then from what its own layer emitted at the tick before.
    pub open spec fn contributions(self, batch: Seq<Spike>, p: int) -> Seq<i64> {
        weighted(self.excitatory[p], batch, -1) + weighted(
            self.inhibitory[p],
            self.last_output,
            self.deaf_to(p),
        )
    }

    /// Every neuron of the layer is quiet under the model: on contributions
    /// that are all zero the model lifts none of them above its threshold.
    pub open spec fn quiet_under<F: Fn(i32, i32, i64, i64, i64, Vec<i64>) -> i64>(
        self,
        model: F,
    ) -> bool {
        forall|p: int| 0 <= p < self.neurons.len() ==> (#[trigger] self.neurons[p]).quiet_under(model)
    }

    /// Every neuron of the layer has a positive time constant, and its rest
    /// and its membrane lie at or below its threshold.
    pub open spec fn rests_below(self) -> bool {
        forall|p: int|
            0 <= p < self.neurons.len() ==> (#[trigger] self.neurons[p]).below_threshold()
                && self.neurons[p].tau > 0
    }

    /// One tick of the layer: every neuron takes one step on its
    /// contributions, and what they emit becomes the layer's last output.
    pub open spec fn steps_to<F: Fn(i32, i32, i64, i64, i64, Vec<i64>) -> i64>(
        self,
        model: F,
        batch: Seq<Spike>,
        next: Self,
        out: Seq<Spike>,
    ) -> bool {
        &&& next == (LayerState {
            neurons: next.neurons,
            last_output: out,
            tick: (self.tick + 1) as i32,
            ..self
        })
        &&& next.neurons.len() == self.neurons.len()
        &&& out.len() == self.neurons.len()
        &&& forall|p: int|
            0 <= p < self.neurons.len() ==> (#[trigger] self.neurons[p]).steps_to(
                model,
                self.contributions(batch, p),
                next.neurons[p],
                out[p],
            )
    }

    /// A layer laid out for `size` neurons, none of them added yet, with
    /// nothing attached.
    pub open spec fn laid_out(size: nat, inhibitory: Seq<Seq<i64>>, excitatory: Seq<Seq<i64>>) -> Self {
        LayerState {
            neurons: Seq::empty(),
            size,
            n_inputs: excitatory[0].len(),
            excitatory,
            inhibitory,
            self_inhibition: false,
            last_output: Seq::empty(),
            tick: 0,
            receiver: None,
            sender: None,
            barrier_in: None,
            barrier_out: None,
        }
    }

    /// The two matrices fit a layer of `size` neurons.
    pub open spec fn fits(size: nat, inhibitory: Seq<Seq<i64>>, excitatory: Seq<Seq<i64>>) -> bool {
        &&& 0 < size <= i32::MAX
        &&& excitatory.len() == size
        &&& is_matrix(excitatory, size, excitatory[0].len())
        &&& is_matrix(inhibitory, size, size)
    }

    /// A complete layer before its first tick: one neuron at rest for each
    /// threshold, nothing attached.
    pub open spec fn built(
        v_rest: i64,
        v_reset: i64,
        tau: i64,
        thresholds: Seq<i64>,
        inhibitory: Seq<Seq<i64>>,
        excitatory: Seq<Seq<i64>>,
    ) -> Self {
        LayerState {
            neurons: Seq::new(
                thresholds.len(),
                |p: int| NeuronState::fresh(thresholds[p], v_rest, v_reset, tau, p as i32),
            ),
            last_output: Seq::new(
                thresholds.len(),
                |p: int| Spike { output: 0, n_neuron: Some(p as i32) },
            ),
            ..LayerState::laid_out(thresholds.len(), inhibitory, excitatory)
        }
    }

    /// The layer with a link attached on the input side or on the output
    /// side, channel and barrier.
    pub open spec fn linked(self, link: usize, input_side: bool) -> Self {
        if input_side {
            LayerState { receiver: Some(link), barrier_in: Some(link), ..self }
        } else {
            LayerState { sender: Some(link), barrier_out: Some(link), ..self }
        }
    }

    /// The layer can take a neuron in: there is room, and the neuron is made
    /// for the next free position.
    pub open spec fn has_place_for(self, neuron: NeuronState) -> bool {
        self.neurons.len() < self.size && neuron.position == self.neurons.len()
    }

    /// The layer with one more neuron at the next free position.
    pub open spec fn with_neuron(self, neuron: NeuronState) -> Self {
        LayerState {
            neurons: self.neurons.push(neuron),
            last_output: self.last_output.push(
                Spike { output: 0, n_neuron: Some(neuron.position) },
            ),
            ..self
        }
    }

    /// The layer with one weight replaced.
    pub open spec fn with_synapse(self, neuron: int, source: int, weight: i64, recurrent: bool) -> Self {
        if recurrent {
            LayerState {
                inhibitory: self.inhibitory.update(
                    neuron,
                    self.inhibitory[neuron].update(source, weight),
                ),
                ..self
            }
        } else {
            LayerState {
                excitatory: self.excitatory.update(
                    neuron,
                    self.excitatory[neuron].update(source, weight),
                ),
                ..self
            }
        }
    }
}

/// A step keeps a neuron's parameters and position, moves its clock by one,
/// and emits a binary spike that carries the position.
pub proof fn lemma_neuron_step_shape<F: Fn(i32, i32, i64, i64, i64, Vec<i64>) -> i64>(
    model: F,
    before: NeuronState,
    contributions: Seq<i64>,
    after: NeuronState,
    spike: Spike,
)
    requires
        before.steps_to(model, contributions, after, spike),
        before.local_tick < i32::MAX,
    ensures
        after.local_tick == before.local_tick + 1,
        after.position == before.position,
        after.threshold == before.threshold,
        after.v_rest == before.v_rest,
        after.v_reset == before.v_reset,
        after.tau == before.tau,
        spike.is_binary(),
        spike.n_neuron == Some(before.position),
        spike.output == 1 ==> after.v_mem == before.v_reset && after.last_fire_tick
            == after.local_tick,
        spike.output == 0 ==> after.last_fire_tick == before.last_fire_tick,
{
}

/// A tick keeps a layer in shape: the layout and the weights stay, every
/// neuron keeps its place, and all clocks move on by one together.
pub proof fn lemma_layer_step_keeps_shape<F: Fn(i32, i32, i64, i64, i64, Vec<i64>) -> i64>(
    model: F,
    before: LayerState,
    batch: Seq<Spike>,
    after: LayerState,
    out: Seq<Spike>,
)
    requires
        before.wf(),
        before.tick < i32::MAX,
        before.steps_to(model, batch, after, out),
    ensures
        after.wf(),
        after.complete() == before.complete(),
        after.tick == before.tick + 1,
        after.size == before.size,
        after.n_inputs == before.n_inputs,
        after.excitatory == before.excitatory,
        after.inhibitory == before.inhibitory,
        after.neurons.len() == before.neurons.len(),
        forall|p: int|
            0 <= p < after.neurons.len() ==> (#[trigger] after.neurons[p]).local_tick
                == before.tick + 1 && after.neurons[p].threshold == before.neurons[p].threshold,
{
    assert forall|p: int| 0 <= p < after.neurons.len() implies {
        &&& (#[trigger] after.neurons[p]).position == p
        &&& after.neurons[p].local_tick == before.tick + 1
        &&& after.neurons[p].threshold == before.neurons[p].threshold
    } by {
        lemma_neuron_step_shape(
            model,
            before.neurons[p],
            before.contributions(batch, p),
            after.neurons[p],
            out[p],
        );
    }
    assert forall|p: int| 0 <= p < after.last_output.len() implies {
        &&& (#[trigger] after.last_output[p]).is_binary()
        &&& after.last_output[p].n_neuron == Some(p as i32)
    } by {
        lemma_neuron_step_shape(
            model,
            before.neurons[p],
            before.contributions(batch, p),
            after.neurons[p],
            out[p],
        );
    }
}

/// `trace` lists a layer before each of `n` ticks and after the last of
/// them; tick `t` takes `batches[t]` in and emits `outs[t]`.
pub open spec fn layer_follows<F: Fn(i32, i32, i64, i64, i64, Vec<i64>) -> i64>(
    model: F,
    trace: Seq<LayerState>,
    batches: Seq<Seq<Spike>>,
    outs: Seq<Seq<Spike>>,
    n: int,
) -> bool {
    &&& trace.len() == n + 1
    &&& batches.len() == n
    &&& outs.len() == n
    &&& forall|t: int|
        0 <= t < n ==> (#[trigger] trace[t]).steps_to(model, batches[t], trace[t + 1], outs[t])
}

/// Lock-step within a layer: after `n` batches the clock of every neuron of
/// the layer has moved on by exactly `n`, none more and none less.
pub proof fn lemma_layer_clocks_count_batches<F: Fn(i32, i32, i64, i64, i64, Vec<i64>) -> i64>(
    model: F,
    trace: Seq<LayerState>,
    batches: Seq<Seq<Spike>>,
    outs: Seq<Seq<Spike>>,
    n: int,
)
    requires
        0 <= n,
        layer_follows(model, trace, batches, outs, n),
        trace[0].wf(),
        trace[0].tick + n <= i32::MAX,
    ensures
        trace[n].wf(),
        trace[n].tick == trace[0].tick + n,
        trace[n].neurons.len() == trace[0].neurons.len(),
        forall|p: int|
            0 <= p < trace[n].neurons.len() ==> (#[trigger] trace[n].neurons[p]).local_tick
                == trace[0].tick + n,
    decreases n,
{
    if n > 0 {
        let shorter = trace.take(n);
        let fewer = batches.take(n - 1);
        let emitted = outs.take(n - 1);
        assert forall|t: int| 0 <= t < n - 1 implies (#[trigger] shorter[t]).steps_to(
            model,
            fewer[t],
            shorter[t + 1],
            emitted[t],
        ) by {
            assert(trace[t].steps_to(model, batches[t], trace[t + 1], outs[t]));
        }
        lemma_layer_clocks_count_batches(model, shorter, fewer, emitted, n - 1);
        assert(shorter[0] == trace[0]);
        assert(shorter[n - 1] == trace[n - 1]);
        assert(trace[n - 1].steps_to(model, batches[n - 1], trace[n], outs[n - 1]));
        lemma_layer_step_keeps_shape(model, trace[n - 1], batches[n - 1], trace[n], outs[n - 1]);
    }
}

/// Silent spikes contribute nothing but zeros.
pub proof fn lemma_silence_weighs_nothing(weights: Seq<i64>, spikes: Seq<Spike>, skipped: int)
    requires
        weights.len() == spikes.len(),
        all_silent(spikes),
    ensures
        all_zero(weighted(weights, spikes, skipped)),
    decreases weights.len(),
{
    if weights.len() > 0 {
        lemma_silence_weighs_nothing(weights.drop_last(), spikes.drop_last(), skipped);
        lemma_weighted_reads_prefix(weights.drop_last(), spikes, spikes.drop_last(), skipped);
        assert(spikes[weights.len() - 1].output == 0);
    }
}

/// A row reads only as many spikes as it has weights.
pub proof fn lemma_weighted_reads_prefix(
    weights: Seq<i64>,
    a: Seq<Spike>,
    b: Seq<Spike>,
    skipped: int,
)
    requires
        weights.len() <= a.len(),
        weights.len() <= b.len(),
        forall|s: int| 0 <= s < weights.len() ==> a[s] == b[s],
    ensures
        weighted(weights, a, skipped) == weighted(weights, b, skipped),
    decreases weights.len(),
{
    if weights.len() > 0 {
        lemma_weighted_reads_prefix(weights.drop_last(), a, b, skipped);
    }
}

/// The contributions of a row add up to the weighted sum of the batch: a
/// connection of weight zero is left out and adds nothing.
pub proof fn lemma_contributions_add_up(weights: Seq<i64>, spikes: Seq<Spike>, skipped: int)
    requires
        weights.len() == spikes.len(),
        all_binary(spikes),
    ensures
        total(weighted(weights, spikes, skipped)) == weighted_sum(
            weights,
            spikes,
            skipped,
            weights.len() as int,
        ),
    decreases weights.len(),
{
    if weights.len() > 0 {
        let s = weights.len() - 1;
        let head = weights.drop_last();
        lemma_contributions_add_up(head, spikes.drop_last(), skipped);
        lemma_weighted_reads_prefix(head, spikes, spikes.drop_last(), skipped);
        lemma_weighted_sum_reads_prefix(head, weights, spikes.drop_last(), spikes, skipped, s);
        assert(spikes[s].is_binary());
        let before = weighted(head, spikes, skipped);
        if weights[s] != 0 && s != skipped {
            let c = Synapse::contribution(weights[s], spikes[s]) as i64;
            assert(before.push(c).drop_last() == before);
            assert(c == weights[s] * spikes[s].output) by (nonlinear_arith)
                requires
                    spikes[s].output == 0 || spikes[s].output == 1,
                    c == (spikes[s].output * weights[s]) as i64,
                    i64::MIN <= weights[s] <= i64::MAX,
            ;
        } else if weights[s] == 0 {
            assert(weights[s] * spikes[s].output == 0) by (nonlinear_arith)
                requires
                    weights[s] == 0,
            ;
        }
    }
}

/// The weighted sum over the first sources does not depend on the others.
pub proof fn lemma_weighted_sum_reads_prefix(
    w1: Seq<i64>,
    w2: Seq<i64>,
    s1: Seq<Spike>,
    s2: Seq<Spike>,
    skipped: int,
    upto: int,
)
    requires
        0 <= upto <= w1.len(),
        upto <= w2.len(),
        upto <= s1.len(),
        upto <= s2.len(),
        forall|s: int| 0 <= s < upto ==> w1[s] == w2[s] && s1[s] == s2[s],
    ensures
        weighted_sum(w1, s1, skipped, upto) == weighted_sum(w2, s2, skipped, upto),
    decreases upto,
{
    if upto > 0 {
        lemma_weighted_sum_reads_prefix(w1, w2, s1, s2, skipped, upto - 1);
    }
}

/// No spontaneous firing: a layer that receives a silent batch after a
/// silent tick of its own emits nothing but silence, as long as its neurons
/// are quiet under the model. Without that the law fails: a neuron that
/// rests above its threshold decays towards rest and fires on zeros.
pub proof fn lemma_silence_in_silence_out<F: Fn(i32, i32, i64, i64, i64, Vec<i64>) -> i64>(
    model: F,
    before: LayerState,
    batch: Seq<Spike>,
    after: LayerState,
    out: Seq<Spike>,
)
    requires
        before.wf(),
        before.complete(),
        before.takes(batch),
        before.steps_to(model, batch, after, out),
        all_silent(batch),
        all_silent(before.last_output),
        before.quiet_under(model),
    ensures
        out.len() == before.neurons.len(),
        all_silent(out),
        all_silent(after.last_output),
        forall|p: int|
            0 <= p < after.neurons.len() ==> (#[trigger] after.neurons[p]).last_fire_tick
                == before.neurons[p].last_fire_tick,
{
    assert forall|p: int| 0 <= p < out.len() implies (#[trigger] out[p]).output == 0
        && after.neurons[p].last_fire_tick == before.neurons[p].last_fire_tick by {
        let contributions = before.contributions(batch, p);
        assert(before.neurons[p].steps_to(model, contributions, after.neurons[p], out[p]));
        assert(before.neurons[p].quiet_under(model));
        lemma_silence_weighs_nothing(before.excitatory[p], batch, -1);
        lemma_silence_weighs_nothing(before.inhibitory[p], before.last_output, before.deaf_to(p));
        assert(all_zero(contributions));
        lemma_zeros_cause_no_spike(model, before.neurons[p], contributions, after.neurons[p], out[p]);
    }
}

/// A layer is quiet under a model under which the membrane of each of its
/// neurons only decays, as soon as rest and membrane of each lie at or below
/// the neuron's threshold.
pub proof fn lemma_decaying_layer_is_quiet<F: Fn(i32, i32, i64, i64, i64, Vec<i64>) -> i64>(
    model: F,
    layer: LayerState,
)
    requires
        forall|p: int|
            0 <= p < layer.neurons.len() ==> (#[trigger] layer.neurons[p]).decays_under(model)
                && layer.neurons[p].below_threshold(),
    ensures
        layer.quiet_under(model),
{
    assert forall|p: int| 0 <= p < layer.neurons.len() implies (
    #[trigger] layer.neurons[p]).quiet_under(model) by {
        lemma_decay_keeps_quiet(model, layer.neurons[p]);
    }
}

/// Silence lasts: under a model under which membranes only decay, a layer
/// whose neurons rest at or below their thresholds, and which has been
/// silent, stays silent for as long as nothing but silent batches come in.
pub proof fn lemma_silence_lasts<F: Fn(i32, i32, i64, i64, i64, Vec<i64>) -> i64>(
    model: F,
    trace: Seq<LayerState>,
    batches: Seq<Seq<Spike>>,
    outs: Seq<Seq<Spike>>,
    n: int,
)
    requires
        0 <= n,
        layer_follows(model, trace, batches, outs, n),
        trace[0].wf(),
        trace[0].complete(),
        trace[0].tick + n <= i32::MAX,
        model_only_decays(model),
        trace[0].rests_below(),
        all_silent(trace[0].last_output),
        forall|t: int|
            0 <= t < n ==> trace[0].takes(#[trigger] batches[t]) && all_silent(batches[t]),
    ensures
        forall|t: int| 0 <= t < n ==> all_silent(#[trigger] outs[t]),
        trace[n].wf(),
        trace[n].complete(),
        trace[n].n_inputs == trace[0].n_inputs,
        trace[n].rests_below(),
        all_silent(trace[n].last_output),
    decreases n,
{
    if n > 0 {
        let shorter = trace.take(n);
        let fewer = batches.take(n - 1);
        let emitted = outs.take(n - 1);
        assert forall|t: int| 0 <= t < n - 1 implies (#[trigger] shorter[t]).steps_to(
            model,
            fewer[t],
            shorter[t + 1],
            emitted[t],
        ) by {
            assert(trace[t].steps_to(model, batches[t], trace[t + 1], outs[t]));
        }
        assert(shorter[0] == trace[0]);
        assert forall|t: int| 0 <= t < n - 1 implies shorter[0].takes(#[trigger] fewer[t])
            && all_silent(fewer[t]) by {
            assert(trace[0].takes(batches[t]) && all_silent(batches[t]));
        }
        lemma_silence_lasts(model, shorter, fewer, emitted, n - 1);
        lemma_layer_clocks_count_batches(model, shorter, fewer, emitted, n - 1);
        assert forall|t: int| 0 <= t < n - 1 implies all_silent(#[trigger] outs[t]) by {
            assert(emitted[t] == outs[t]);
        }
        let before = trace[n - 1];
        let after = trace[n];
        let batch = batches[n - 1];
        let out = outs[n - 1];
        assert(shorter[n - 1] == before);
        assert(before.steps_to(model, batch, after, out));
        assert(trace[0].takes(batch) && all_silent(batch));
        lemma_layer_step_keeps_shape(model, before, batch, after, out);
        assert forall|p: int| 0 <= p < after.neurons.len() implies (#[trigger] out[p]).output == 0
            && after.neurons[p].below_threshold() && after.neurons[p].tau > 0 by {
            let contributions = before.contributions(batch, p);
            assert(before.neurons[p].steps_to(model, contributions, after.neurons[p], out[p]));
            assert(before.neurons[p].below_threshold() && before.neurons[p].tau > 0);
            assert(before.neurons[p].decays_under(model));
            lemma_silence_weighs_nothing(before.excitatory[p], batch, -1);
            lemma_silence_weighs_nothing(
                before.inhibitory[p],
                before.last_output,
                before.deaf_to(p),
            );
            assert(all_zero(contributions));
            lemma_zeros_keep_below(model, before.neurons[p], contributions, after.neurons[p], out[p]);
        }
        assert forall|p: int| 0 <= p < after.neurons.len() implies (
        #[trigger] after.neurons[p]).below_threshold() && after.neurons[p].tau > 0 by {
            assert(out[p].output == 0);
        }
    }
}

} // verus!
