use vstd::prelude::*;
use crate::spike::Spike;

verus! {

/// A neuron as plain values: its parameters and its mutable state.
pub struct NeuronState {
    pub threshold: i64,
    pub v_rest: i64,
    pub v_reset: i64,
    pub tau: i64,
    pub v_mem: i64,
    pub last_fire_tick: i32,
    pub local_tick: i32,
    pub position: i32,
}

/// The model can be called on every input.
pub open spec fn model_is_total<F: Fn(i32, i32, i64, i64, i64, Vec<i64>) -> i64>(model: F) -> bool {
    forall|tick: i32, last: i32, v_rest: i64, v_mem: i64, tau: i64, inputs: Vec<i64>|
        model.requires((tick, last, v_rest, v_mem, tau, inputs))
}

/// `v` is a potential that the model may return for a neuron in state `at`
/// that receives `contributions`.
pub open spec fn model_yields<F: Fn(i32, i32, i64, i64, i64, Vec<i64>) -> i64>(
    model: F,
    at: NeuronState,
    contributions: Seq<i64>,
    v: i64,
) -> bool {
    exists|inputs: Vec<i64>|
        inputs@ == contributions && #[trigger] model.ensures(
            (at.local_tick, at.last_fire_tick, at.v_rest, at.v_mem, at.tau, inputs),
            v,
        )
}

/// Under the model the membrane of a neuron with a positive time constant
/// only decays as long as nothing but zeros comes in.
pub open spec fn model_only_decays<F: Fn(i32, i32, i64, i64, i64, Vec<i64>) -> i64>(model: F) -> bool {
    forall|neuron: NeuronState| neuron.tau > 0 ==> #[trigger] neuron.decays_under(model)
}

/// Every contribution is zero.
pub open spec fn all_zero(contributions: Seq<i64>) -> bool {
    forall|i: int| 0 <= i < contributions.len() ==> #[trigger] contributions[i] == 0
}

impl NeuronState {
    /// The neuron at rest, before its first tick.
    pub open spec fn fresh(threshold: i64, v_rest: i64, v_reset: i64, tau: i64, position: i32) -> Self {
        NeuronState {
            threshold,
            v_rest,
            v_reset,
            tau,
            v_mem: v_rest,
            last_fire_tick: 0,
            local_tick: 0,
            position,
        }
    }

    /// The same neuron one tick later.
    pub open spec fn advanced(self) -> Self {
        NeuronState { local_tick: (self.local_tick + 1) as i32, ..self }
    }

    pub open spec fn fires(self, v_new: i64) -> bool {
        v_new > self.threshold
    }

    /// The neuron once the model has returned `v_new` for the current tick.
    pub open spec fn settled(self, v_new: i64) -> Self {
        if self.fires(v_new) {
            NeuronState { v_mem: self.v_reset, last_fire_tick: self.local_tick, ..self }
        } else {
            NeuronState { v_mem: v_new, ..self }
        }
    }

    /// The spike that goes with `settled`.
    pub open spec fn verdict(self, v_new: i64) -> Spike {
        Spike { output: if self.fires(v_new) { 1i8 } else { 0i8 }, n_neuron: Some(self.position) }
    }

    /// One tick. The clock moves on by one. Without any contribution the
    /// membrane is left alone: the model is not consulted and no spike is
    /// emitted. On every other set of contributions, zeros among them, the
    /// model is consulted and decides.
    pub open spec fn steps_to<F: Fn(i32, i32, i64, i64, i64, Vec<i64>) -> i64>(
        self,
        model: F,
        contributions: Seq<i64>,
        next: Self,
        spike: Spike,
    ) -> bool {
        if contributions.len() == 0 {
            next == self.advanced() && spike == (Spike { output: 0, n_neuron: Some(self.position) })
        } else {
            exists|v: i64|
                #![trigger model_yields(model, self.advanced(), contributions, v)]
                model_yields(model, self.advanced(), contributions, v) && next
                    == self.advanced().settled(v) && spike == self.advanced().verdict(v)
        }
    }

    /// Rest and membrane lie at or below the threshold.
    pub open spec fn below_threshold(self) -> bool {
        self.v_rest <= self.threshold && self.v_mem <= self.threshold
    }

    /// Whatever the model returns for the neuron's next tick on contributions
    /// that are all zero lies between rest and membrane: without input the
    /// membrane only decays.
    pub open spec fn decays_under<F: Fn(i32, i32, i64, i64, i64, Vec<i64>) -> i64>(
        self,
        model: F,
    ) -> bool {
        forall|zeros: Seq<i64>, v: i64|
            #![trigger model_yields(model, self.advanced(), zeros, v)]
            all_zero(zeros) && model_yields(model, self.advanced(), zeros, v) ==> (self.v_rest <= v
                <= self.v_mem || self.v_mem <= v <= self.v_rest)
    }

    /// Nothing that the model returns for the neuron's next tick on
    /// contributions that are all zero lies above the threshold.
    pub open spec fn quiet_under<F: Fn(i32, i32, i64, i64, i64, Vec<i64>) -> i64>(
        self,
        model: F,
    ) -> bool {
        forall|zeros: Seq<i64>, v: i64|
            #![trigger model_yields(model, self.advanced(), zeros, v)]
            all_zero(zeros) && model_yields(model, self.advanced(), zeros, v) ==> v
                <= self.threshold
    }
}

/// A leaky integrate-and-fire neuron. How the membrane potential evolves is
/// left to a model that the caller supplies; the neuron keeps the clock,
/// compares against the threshold, and resets.
///
/// A neuron that receives nothing at all is not evaluated. One that
/// receives zeros is: what becomes of it is up to the model.
#[derive(Clone, Copy, Debug)]
pub struct Neuron {
    threshold: i64,
    v_rest: i64,
    v_reset: i64,
    tau: i64,
    v_mem: i64,
    last_fire_tick: i32,
    local_tick: i32,
    position: i32,
}

impl View for Neuron {
    type V = NeuronState;

    closed spec fn view(&self) -> NeuronState {
        NeuronState {
            threshold: self.threshold,
            v_rest: self.v_rest,
            v_reset: self.v_reset,
            tau: self.tau,
            v_mem: self.v_mem,
            last_fire_tick: self.last_fire_tick,
            local_tick: self.local_tick,
            position: self.position,
        }
    }
}

impl Neuron {
    pub fn new(threshold: i64, v_rest: i64, v_reset: i64, tau: i64, position: i32) -> (neuron: Self)
        ensures
            neuron@ == NeuronState::fresh(threshold, v_rest, v_reset, tau, position),
    {
        Self {
            threshold,
            v_rest,
            v_reset,
            tau,
            v_mem: v_rest,
            last_fire_tick: 0,
            local_tick: 0,
            position,
        }
    }

    /// Closes the current tick with the potential that the model returned.
    pub fn settle(&mut self, v_new: i64) -> (spike: Spike)
        ensures
            final(self)@ == old(self)@.settled(v_new),
            spike == old(self)@.verdict(v_new),
    {
        if v_new > self.threshold {
            self.v_mem = self.v_reset;
            self.last_fire_tick = self.local_tick;
            Spike::new(1, Some(self.position))
        } else {
            self.v_mem = v_new;
            Spike::new(0, Some(self.position))
        }
    }

    /// One tick of the neuron on the contributions gathered for it.
    pub fn run<F: Fn(i32, i32, i64, i64, i64, Vec<i64>) -> i64>(
        &mut self,
        weighted_inputs: Vec<i64>,
        model: &F,
    ) -> (spike: Spike)
        requires
            old(self)@.local_tick < i32::MAX,
            model_is_total(*model),
        ensures
            old(self)@.steps_to(*model, weighted_inputs@, final(self)@, spike),
    {
        self.local_tick = self.local_tick + 1;
        if weighted_inputs.len() == 0 {
            return Spike::new(0, Some(self.position));
        }
        let ghost at = self@;
        let ghost given = weighted_inputs;
        let v_new = model(
            self.local_tick,
            self.last_fire_tick,
            self.v_rest,
            self.v_mem,
            self.tau,
            weighted_inputs,
        );
        assert(model.ensures(
            (at.local_tick, at.last_fire_tick, at.v_rest, at.v_mem, at.tau, given),
            v_new,
        ));
        assert(model_yields(*model, at, given@, v_new));
        assert(at == old(self)@.advanced());
        self.settle(v_new)
    }

    pub fn threshold(&self) -> (v: i64)
        ensures
            v == self@.threshold,
    {
        self.threshold
    }

    pub fn v_mem(&self) -> (v: i64)
        ensures
            v == self@.v_mem,
    {
        self.v_mem
    }

    pub fn local_tick(&self) -> (tick: i32)
        ensures
            tick == self@.local_tick,
    {
        self.local_tick
    }

    pub fn last_fire_tick(&self) -> (tick: i32)
        ensures
            tick == self@.last_fire_tick,
    {
        self.last_fire_tick
    }

    pub fn position(&self) -> (position: i32)
        ensures
            position == self@.position,
    {
        self.position
    }
}

/// A tick without contributions emits no spike, leaves the membrane where
/// it was and the last-fire tick alone: the membrane lies at or below the
/// threshold afterwards if it did before, and above it only if it did before.
pub proof fn lemma_idle_tick_stays_below<F: Fn(i32, i32, i64, i64, i64, Vec<i64>) -> i64>(
    model: F,
    before: NeuronState,
    contributions: Seq<i64>,
    after: NeuronState,
    spike: Spike,
)
    requires
        contributions.len() == 0,
        before.steps_to(model, contributions, after, spike),
    ensures
        spike.output == 0,
        after.v_mem == before.v_mem,
        after.threshold == before.threshold,
        after.last_fire_tick == before.last_fire_tick,
        before.v_mem <= before.threshold ==> after.v_mem <= after.threshold,
        after.v_mem > after.threshold ==> before.v_mem > before.threshold,
{
}

/// Where the membrane only decays, and rest and membrane lie at or below the
/// threshold, nothing that the model returns on zeros lies above it.
pub proof fn lemma_decay_keeps_quiet<F: Fn(i32, i32, i64, i64, i64, Vec<i64>) -> i64>(
    model: F,
    neuron: NeuronState,
)
    requires
        neuron.decays_under(model),
        neuron.below_threshold(),
    ensures
        neuron.quiet_under(model),
{
}

/// Decay alone causes no spike: a tick on which a quiet neuron receives
/// nothing, or nothing but zeros, emits no spike and does not reset, and the
/// membrane lies at or below the threshold afterwards if it did before.
pub proof fn lemma_zeros_cause_no_spike<F: Fn(i32, i32, i64, i64, i64, Vec<i64>) -> i64>(
    model: F,
    before: NeuronState,
    contributions: Seq<i64>,
    after: NeuronState,
    spike: Spike,
)
    requires
        all_zero(contributions),
        before.quiet_under(model),
        before.steps_to(model, contributions, after, spike),
    ensures
        spike.output == 0,
        after.threshold == before.threshold,
        after.last_fire_tick == before.last_fire_tick,
        before.v_mem <= before.threshold ==> after.v_mem <= after.threshold,
{
    if contributions.len() > 0 {
        let v = choose|v: i64|
            #![trigger model_yields(model, before.advanced(), contributions, v)]
            model_yields(model, before.advanced(), contributions, v) && after
                == before.advanced().settled(v) && spike == before.advanced().verdict(v);
        assert(model_yields(model, before.advanced(), contributions, v));
    }
}

/// A neuron whose membrane only decays stays where it is allowed to be: a
/// tick on zeros emits no spike, and rest and membrane lie at or below the
/// threshold afterwards as they did before.
pub proof fn lemma_zeros_keep_below<F: Fn(i32, i32, i64, i64, i64, Vec<i64>) -> i64>(
    model: F,
    before: NeuronState,
    contributions: Seq<i64>,
    after: NeuronState,
    spike: Spike,
)
    requires
        all_zero(contributions),
        before.decays_under(model),
        before.below_threshold(),
        before.steps_to(model, contributions, after, spike),
    ensures
        spike.output == 0,
        after.below_threshold(),
        after.tau == before.tau,
        after.last_fire_tick == before.last_fire_tick,
{
    if contributions.len() > 0 {
        let v = choose|v: i64|
            #![trigger model_yields(model, before.advanced(), contributions, v)]
            model_yields(model, before.advanced(), contributions, v) && after
                == before.advanced().settled(v) && spike == before.advanced().verdict(v);
        assert(model_yields(model, before.advanced(), contributions, v));
    }
}

} // verus!
