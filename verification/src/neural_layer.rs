use vstd::prelude::*;
use crate::errors::SNNError;
use crate::layer_state::{is_matrix, lemma_neuron_step_shape, weighted, LayerState};
use crate::neuron::{model_is_total, Neuron, NeuronState};
use crate::spike::{all_binary, Spike};
use crate::synapse::Synapse;

verus! {

/// The rows of a matrix as sequences.
pub open spec fn rows(m: Seq<Vec<i64>>) -> Seq<Seq<i64>> {
    Seq::new(m.len(), |p: int| m[p]@)
}

/// The neurons of a vector as plain values.
pub open spec fn states(neurons: Seq<Neuron>) -> Seq<NeuronState> {
    Seq::new(neurons.len(), |p: int| neurons[p]@)
}

/// One stage of the pipeline: a set of neurons with the weights that reach
/// them from the stage before and from the layer's own last output.
pub struct NeuralLayer {
    neurons: Vec<Neuron>,
    size: usize,
    n_inputs: usize,
    excitatory: Vec<Vec<i64>>,
    inhibitory: Vec<Vec<i64>>,
    self_inhibition: bool,
    last_output: Vec<Spike>,
    tick: i32,
    receiver: Option<usize>,
    sender: Option<usize>,
    barrier_in: Option<usize>,
    barrier_out: Option<usize>,
}

impl View for NeuralLayer {
    type V = LayerState;

    closed spec fn view(&self) -> LayerState {
        LayerState {
            neurons: states(self.neurons@),
            size: self.size as nat,
            n_inputs: self.n_inputs as nat,
            excitatory: rows(self.excitatory@),
            inhibitory: rows(self.inhibitory@),
            self_inhibition: self.self_inhibition,
            last_output: self.last_output@,
            tick: self.tick,
            receiver: self.receiver,
            sender: self.sender,
            barrier_in: self.barrier_in,
            barrier_out: self.barrier_out,
        }
    }
}

/// Tells whether a matrix has the given number of rows and columns.
pub fn has_shape(m: &Vec<Vec<i64>>, n_rows: usize, n_cols: usize) -> (ok: bool)
    ensures
        ok == is_matrix(rows(m@), n_rows as nat, n_cols as nat),
{
    if m.len() != n_rows {
        return false;
    }
    let mut p: usize = 0;
    while p < n_rows
        invariant
            p <= n_rows,
            m@.len() == n_rows,
            forall|q: int| 0 <= q < p ==> (#[trigger] rows(m@)[q]).len() == n_cols,
        decreases n_rows - p,
    {
        if m[p].len() != n_cols {
            assert(rows(m@)[p as int].len() != n_cols);
            return false;
        }
        assert(rows(m@)[p as int].len() == n_cols);
        p = p + 1;
    }
    true
}

/// Appends to `into` what a row of weights draws from a batch.
fn gather(weights: &Vec<i64>, spikes: &Vec<Spike>, skipped: Option<usize>, into: &mut Vec<i64>)
    requires
        weights@.len() == spikes@.len(),
        all_binary(spikes@),
    ensures
        final(into)@ == old(into)@ + weighted(
            weights@,
            spikes@,
            match skipped {
                Some(s) => s as int,
                None => -1,
            },
        ),
{
    let ghost skip = match skipped {
        Some(s) => s as int,
        None => -1,
    };
    let mut s: usize = 0;
    assert(weights@.take(0) == Seq::<i64>::empty());
    assert(into@ == old(into)@ + Seq::<i64>::empty());
    while s < weights.len()
        invariant
            s <= weights.len(),
            weights@.len() == spikes@.len(),
            all_binary(spikes@),
            skip == match skipped {
                Some(s) => s as int,
                None => -1,
            },
            into@ == old(into)@ + weighted(weights@.take(s as int), spikes@, skip),
        decreases weights.len() - s,
    {
        let listens = match skipped {
            Some(own) => own != s,
            None => true,
        };
        proof {
            assert(weights@.take(s + 1).drop_last() == weights@.take(s as int));
            assert(spikes@[s as int].is_binary());
        }
        if listens {
            match Synapse::new(weights[s]) {
                Some(synapse) => {
                    let c = synapse.weigh(spikes[s]);
                    into.push(c);
                    assert(into@ == old(into)@ + weighted(weights@.take(s + 1), spikes@, skip));
                },
                None => {},
            }
        }
        s = s + 1;
    }
    assert(weights@.take(s as int) == weights@);
}

impl NeuralLayer {
    /// Lays a layer out for `n_neurons` neurons and the given weights. The
    /// neurons are added afterwards. Matrices that do not fit are refused.
    pub fn new(
        n_neurons: usize,
        intra_layer_weights: Vec<Vec<i64>>,
        input_weights: Vec<Vec<i64>>,
    ) -> (result: Result<Self, SNNError>)
        ensures
            !LayerState::fits(
                n_neurons as nat,
                rows(intra_layer_weights@),
                rows(input_weights@),
            ) ==> result == Err::<Self, SNNError>(SNNError::ConfigError),
            LayerState::fits(n_neurons as nat, rows(intra_layer_weights@), rows(input_weights@))
                ==> (result matches Ok(layer) && layer@.wf() && layer@ == LayerState::laid_out(
                n_neurons as nat,
                rows(intra_layer_weights@),
                rows(input_weights@),
            )),
    {
        if n_neurons == 0 || n_neurons > i32::MAX as usize || input_weights.len() != n_neurons {
            return Err(SNNError::ConfigError);
        }
        let n_inputs = input_weights[0].len();
        assert(rows(input_weights@)[0] == input_weights@[0]@);
        if !has_shape(&input_weights, n_neurons, n_inputs) || !has_shape(
            &intra_layer_weights,
            n_neurons,
            n_neurons,
        ) {
            return Err(SNNError::ConfigError);
        }
        let layer = Self {
            neurons: Vec::new(),
            size: n_neurons,
            n_inputs,
            excitatory: input_weights,
            inhibitory: intra_layer_weights,
            self_inhibition: false,
            last_output: Vec::new(),
            tick: 0,
            receiver: None,
            sender: None,
            barrier_in: None,
            barrier_out: None,
        };
        assert(layer@.neurons =~= Seq::<NeuronState>::empty());
        Ok(layer)
    }

    /// Adds the neuron for the next free position. A neuron for another
    /// position, or one more than the layer is laid out for, is out of range;
    /// a neuron whose clock differs from the layer's does not fit.
    pub fn add_neuron(&mut self, neuron: Neuron) -> (result: Result<(), SNNError>)
        requires
            old(self)@.wf(),
        ensures
            final(self)@.wf(),
            !old(self)@.has_place_for(neuron@) ==> result == Err::<(), SNNError>(
                SNNError::IndexOutOfRange,
            ) && final(self)@ == old(self)@,
            old(self)@.has_place_for(neuron@) && neuron@.local_tick != old(self)@.tick ==> result
                == Err::<(), SNNError>(SNNError::ConfigError) && final(self)@ == old(self)@,
            old(self)@.has_place_for(neuron@) && neuron@.local_tick == old(self)@.tick ==> result
                == Ok::<(), SNNError>(()) && final(self)@ == old(self)@.with_neuron(neuron@),
    {
        let n = self.neurons.len();
        if n >= self.size || neuron.position() < 0 || neuron.position() as usize != n {
            return Err(SNNError::IndexOutOfRange);
        }
        if neuron.local_tick() != self.tick {
            return Err(SNNError::ConfigError);
        }
        let position = neuron.position();
        self.neurons.push(neuron);
        self.last_output.push(Spike::new(0, Some(position)));
        proof {
            assert(self@.neurons =~= old(self)@.neurons.push(neuron@));
            assert(self@ == old(self)@.with_neuron(neuron@));
            assert forall|p: int| 0 <= p < self@.neurons.len() implies (
            #[trigger] self@.neurons[p]).position == p && self@.neurons[p].local_tick
                == self@.tick by {
                if p < n {
                    assert(self@.neurons[p] == old(self)@.neurons[p]);
                }
            }
            assert forall|p: int| 0 <= p < self@.last_output.len() implies (
            #[trigger] self@.last_output[p]).is_binary() && self@.last_output[p].n_neuron == Some(
                p as i32,
            ) by {
                if p < n {
                    assert(self@.last_output[p] == old(self)@.last_output[p]);
                }
            }
        }
        Ok(())
    }

    /// Sets the weight of one connection into a neuron of the layer: from a
    /// source of the stage before, or, if `recurrent`, from a neuron of the
    /// layer itself. Weight zero takes the connection away. A neuron or a
    /// source beyond the layout is out of range.
    pub fn add_synapse(&mut self, neuron: usize, source: usize, weight: i64, recurrent: bool) -> (result:
        Result<(), SNNError>)
        requires
            old(self)@.wf(),
        ensures
            final(self)@.wf(),
            neuron < old(self)@.size && source < (if recurrent {
                old(self)@.size
            } else {
                old(self)@.n_inputs
            }) ==> result == Ok::<(), SNNError>(()) && final(self)@ == old(self)@.with_synapse(
                neuron as int,
                source as int,
                weight,
                recurrent,
            ),
            !(neuron < old(self)@.size && source < (if recurrent {
                old(self)@.size
            } else {
                old(self)@.n_inputs
            })) ==> result == Err::<(), SNNError>(SNNError::IndexOutOfRange) && final(self)@
                == old(self)@,
    {
        let n_sources = if recurrent {
            self.size
        } else {
            self.n_inputs
        };
        if neuron >= self.size || source >= n_sources {
            return Err(SNNError::IndexOutOfRange);
        }
        proof {
            assert(rows(self.excitatory@)[neuron as int] == self.excitatory@[neuron as int]@);
            assert(rows(self.inhibitory@)[neuron as int] == self.inhibitory@[neuron as int]@);
        }
        if recurrent {
            self.inhibitory[neuron].set(source, weight);
            proof {
                assert(self@.inhibitory =~= old(self)@.inhibitory.update(
                    neuron as int,
                    old(self)@.inhibitory[neuron as int].update(source as int, weight),
                ));
                assert forall|p: int| 0 <= p < self@.size implies (
                #[trigger] self@.inhibitory[p]).len() == self@.size by {
                    assert(old(self)@.inhibitory[p].len() == self@.size);
                }
            }
        } else {
            self.excitatory[neuron].set(source, weight);
            proof {
                assert(self@.excitatory =~= old(self)@.excitatory.update(
                    neuron as int,
                    old(self)@.excitatory[neuron as int].update(source as int, weight),
                ));
                assert forall|p: int| 0 <= p < self@.size implies (
                #[trigger] self@.excitatory[p]).len() == self@.n_inputs by {
                    assert(old(self)@.excitatory[p].len() == self@.n_inputs);
                }
            }
        }
        Ok(())
    }

    /// Decides whether a neuron listens to its own last output.
    pub fn set_self_inhibition(&mut self, allowed: bool)
        ensures
            final(self)@ == (LayerState { self_inhibition: allowed, ..old(self)@ }),
    {
        self.self_inhibition = allowed;
    }

    /// Attaches the outbound link, in place of the one attached before.
    pub fn add_sender(&mut self, link: usize)
        ensures
            final(self)@ == (LayerState { sender: Some(link), ..old(self)@ }),
    {
        self.sender = Some(link);
    }

    /// Attaches the inbound link, in place of the one attached before.
    pub fn add_receiver(&mut self, link: usize)
        ensures
            final(self)@ == (LayerState { receiver: Some(link), ..old(self)@ }),
    {
        self.receiver = Some(link);
    }

    /// Attaches the barrier of a link on the input side or on the output side.
    pub fn set_barrier(&mut self, link: usize, input_side: bool)
        ensures
            input_side ==> final(self)@ == (LayerState { barrier_in: Some(link), ..old(self)@ }),
            !input_side ==> final(self)@ == (LayerState { barrier_out: Some(link), ..old(self)@ }),
    {
        if input_side {
            self.barrier_in = Some(link);
        } else {
            self.barrier_out = Some(link);
        }
    }

    /// Tells whether the layer can be handed to a worker: both endpoints
    /// and both barriers are attached.
    pub fn check_wired(&self) -> (result: Result<(), SNNError>)
        ensures
            self@.wired() ==> result == Ok::<(), SNNError>(()),
            !self@.wired() ==> result == Err::<(), SNNError>(SNNError::Unwired),
    {
        match (self.receiver, self.sender, self.barrier_in, self.barrier_out) {
            (Some(rx), Some(tx), Some(b_in), Some(b_out)) => {
                if rx == b_in && tx == b_out {
                    Ok(())
                } else {
                    Err(SNNError::Unwired)
                }
            },
            _ => Err(SNNError::Unwired),
        }
    }

    /// Tells whether `run_neurons` can take the batch: the layer is complete,
    /// its clock can move on, and the batch has one binary spike for each
    /// source.
    pub fn accepts(&self, batch: &Vec<Spike>) -> (ok: bool)
        ensures
            ok == (self@.complete() && self@.tick < i32::MAX && self@.takes(batch@)),
    {
        if self.neurons.len() != self.size || self.tick == i32::MAX || batch.len()
            != self.n_inputs {
            return false;
        }
        let mut s: usize = 0;
        while s < batch.len()
            invariant
                s <= batch.len(),
                forall|j: int| 0 <= j < s ==> (#[trigger] batch@[j]).is_binary(),
            decreases batch.len() - s,
        {
            if !batch[s].check_binary() {
                return false;
            }
            s = s + 1;
        }
        true
    }

    /// The per-tick work of the layer: every neuron receives what the batch
    /// of the stage before and the layer's own last output contribute, and
    /// takes one step. What the neurons emit is returned, and kept as the
    /// last output for the tick to come.
    pub fn run_neurons<F: Fn(i32, i32, i64, i64, i64, Vec<i64>) -> i64>(
        &mut self,
        batch: &Vec<Spike>,
        model: &F,
    ) -> (out: Vec<Spike>)
        requires
            old(self)@.wf(),
            old(self)@.complete(),
            old(self)@.takes(batch@),
            old(self)@.tick < i32::MAX,
            model_is_total(*model),
        ensures
            old(self)@.steps_to(*model, batch@, final(self)@, out@),
            final(self)@.wf(),
            final(self)@.complete(),
            all_binary(out@),
    {
        let n = self.neurons.len();
        let mut out: Vec<Spike> = Vec::new();
        let mut kept: Vec<Spike> = Vec::new();
        let mut p: usize = 0;
        while p < n
            invariant
                p <= n,
                n == old(self)@.size,
                old(self)@.wf(),
                old(self)@.complete(),
                old(self)@.takes(batch@),
                old(self)@.tick < i32::MAX,
                model_is_total(*model),
                self.neurons@.len() == n,
                self@ == (LayerState { neurons: self@.neurons, ..old(self)@ }),
                out@.len() == p,
                kept@ == out@,
                forall|q: int| p <= q < n ==> #[trigger] self@.neurons[q] == old(self)@.neurons[q],
                forall|q: int|
                    0 <= q < p ==> (#[trigger] old(self)@.neurons[q]).steps_to(
                        *model,
                        old(self)@.contributions(batch@, q),
                        self@.neurons[q],
                        out@[q],
                    ),
            decreases n - p,
        {
            let ghost before = self@;
            let mut contributions: Vec<i64> = Vec::new();
            proof {
                assert(rows(self.excitatory@)[p as int] == self.excitatory@[p as int]@);
                assert(rows(self.inhibitory@)[p as int] == self.inhibitory@[p as int]@);
                assert(old(self)@.excitatory[p as int].len() == batch@.len());
                assert(old(self)@.inhibitory[p as int].len() == self.last_output@.len());
                assert(all_binary(self.last_output@));
            }
            gather(&self.excitatory[p], batch, None, &mut contributions);
            let own = if self.self_inhibition {
                None
            } else {
                Some(p)
            };
            gather(&self.inhibitory[p], &self.last_output, own, &mut contributions);
            assert(contributions@ == old(self)@.contributions(batch@, p as int));
            assert(self@.neurons[p as int] == old(self)@.neurons[p as int]);
            let spike = self.neurons[p].run(contributions, model);
            out.push(spike);
            kept.push(spike);
            proof {
                assert forall|q: int| p < q < n implies #[trigger] self@.neurons[q] == old(
                    self,
                )@.neurons[q] by {
                    assert(before.neurons[q] == old(self)@.neurons[q]);
                }
                assert forall|q: int| 0 <= q < p + 1 implies (#[trigger] old(
                    self,
                )@.neurons[q]).steps_to(
                    *model,
                    old(self)@.contributions(batch@, q),
                    self@.neurons[q],
                    out@[q],
                ) by {
                    if q < p {
                        assert(self@.neurons[q] == before.neurons[q]);
                    }
                }
            }
            p = p + 1;
        }
        self.last_output = kept;
        self.tick = self.tick + 1;
        proof {
            assert forall|q: int| 0 <= q < n implies {
                &&& (#[trigger] self@.neurons[q]).position == q
                &&& self@.neurons[q].local_tick == self@.tick
            } by {
                lemma_neuron_step_shape(
                    *model,
                    old(self)@.neurons[q],
                    old(self)@.contributions(batch@, q),
                    self@.neurons[q],
                    out@[q],
                );
            }
            assert forall|q: int| 0 <= q < n implies {
                &&& (#[trigger] out@[q]).is_binary()
                &&& out@[q].n_neuron == Some(q as i32)
            } by {
                lemma_neuron_step_shape(
                    *model,
                    old(self)@.neurons[q],
                    old(self)@.contributions(batch@, q),
                    self@.neurons[q],
                    out@[q],
                );
            }
        }
        out
    }

    /// The number of neurons that the layer is laid out for.
    pub fn len(&self) -> (n: usize)
        ensures
            n == self@.size,
    {
        self.size
    }

    /// The number of sources in the stage before.
    pub fn n_inputs(&self) -> (n: usize)
        ensures
            n == self@.n_inputs,
    {
        self.n_inputs
    }

    /// The number of batches processed.
    pub fn ticks(&self) -> (tick: i32)
        ensures
            tick == self@.tick,
    {
        self.tick
    }

    /// The inbound link, if one is attached.
    pub fn receiver(&self) -> (link: Option<usize>)
        ensures
            link == self@.receiver,
    {
        self.receiver
    }

    /// The outbound link, if one is attached.
    pub fn sender(&self) -> (link: Option<usize>)
        ensures
            link == self@.sender,
    {
        self.sender
    }

    pub fn is_complete(&self) -> (complete: bool)
        ensures
            complete == self@.complete(),
    {
        self.neurons.len() == self.size
    }

    /// The neurons added so far.
    pub fn neurons(&self) -> (neurons: &Vec<Neuron>)
        ensures
            states(neurons@) == self@.neurons,
    {
        &self.neurons
    }

    /// The weights from the stage before, one row for each neuron.
    pub fn excitatory(&self) -> (weights: &Vec<Vec<i64>>)
        ensures
            rows(weights@) == self@.excitatory,
    {
        &self.excitatory
    }

    /// The weights from the layer's own last output, one row for each neuron.
    pub fn inhibitory(&self) -> (weights: &Vec<Vec<i64>>)
        ensures
            rows(weights@) == self@.inhibitory,
    {
        &self.inhibitory
    }

    /// What the layer emitted at the tick before.
    pub fn last_output(&self) -> (batch: &Vec<Spike>)
        ensures
            batch@ == self@.last_output,
    {
        &self.last_output
    }
}

} // verus!
