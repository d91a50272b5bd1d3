use vstd::prelude::*;
use crate::errors::SNNError;
use crate::input::{Input, InputState};
use crate::layer_state::LayerState;
use crate::neural_layer::NeuralLayer;
use crate::neuron::model_is_total;
use crate::output::{lemma_room_for_batch, MonitorState, OutputMonitor};
use crate::spike::{all_binary, Spike};

verus! {

/// Where a worker stands within a tick.
#[derive(Clone, Copy, Debug, PartialEq, Eq, Structural)]
pub enum Phase {
    /// Blocked on the inbound channel.
    Receiving,
    /// Waiting at the barrier shared with the stage before.
    InputBarrier,
    /// Blocked on the outbound channel.
    Sending,
    /// Waiting at the barrier shared with the stage after.
    OutputBarrier,
    /// Done, for good or for bad: the worker drops its endpoints and returns.
    Stopped,
}

/// What the world answers to the last action of a worker.
pub enum Event<T> {
    /// The inbound channel delivered.
    Arrived(T),
    /// The inbound channel is closed: the stage before has finished.
    Closed,
    /// All stages at the barrier have arrived.
    Passed,
    /// The outbound channel took what was sent.
    Sent,
    /// The outbound channel is gone: the stage after has failed.
    SendFailed,
}

/// What a worker asks to be done next. Each action blocks until the world
/// has an event for it; `Stop` ends the worker.
pub enum Action<T> {
    Receive,
    WaitInput,
    Send(T),
    WaitOutput,
    Stop(Result<(), SNNError>),
}

/// The worker of a layer as plain values.
pub struct LayerWorkerState {
    pub layer: LayerState,
    pub phase: Phase,
    /// The batch that arrived and waits for the barrier to pass.
    pub pending: Seq<Spike>,
}

impl LayerWorkerState {
    /// The layer can run, and what waits at the barrier is a batch for it.
    pub open spec fn wf(self) -> bool {
        &&& self.layer.wf()
        &&& self.layer.complete()
        &&& self.layer.wired()
        &&& self.phase == Phase::InputBarrier ==> self.layer.takes(self.pending)
            && self.layer.tick < i32::MAX
    }

    /// The worker stopped where it stood.
    pub open spec fn stopped(self) -> Self {
        LayerWorkerState { phase: Phase::Stopped, ..self }
    }

    /// The tick of a layer, step by step: receive a batch, or stop when the
    /// stage before has closed; wait for the stage before; let the neurons
    /// run and publish what they emit; wait for the stage after; and again.
    /// A batch that the layer cannot take, a failed send, and an event that
    /// does not answer the last action are faults.
    pub open spec fn reacts<F: Fn(i32, i32, i64, i64, i64, Vec<i64>) -> i64>(
        self,
        model: F,
        event: Event<Vec<Spike>>,
        next: Self,
        action: Action<Vec<Spike>>,
    ) -> bool {
        match (self.phase, event) {
            (Phase::Receiving, Event::Arrived(batch)) => if self.layer.takes(batch@)
                && self.layer.tick < i32::MAX {
                next == (LayerWorkerState { phase: Phase::InputBarrier, pending: batch@, ..self })
                    && action is WaitInput
            } else {
                next == self.stopped() && action == Action::<Vec<Spike>>::Stop(
                    Err(SNNError::ChannelFault),
                )
            },
            (Phase::Receiving, Event::Closed) => next == self.stopped() && action == Action::<
                Vec<Spike>,
            >::Stop(Ok(())),
            (Phase::InputBarrier, Event::Passed) => {
                &&& action matches Action::Send(out)
                &&& self.layer.steps_to(model, self.pending, next.layer, out@)
                &&& next.phase == Phase::Sending
                &&& next.pending == Seq::<Spike>::empty()
            },
            (Phase::Sending, Event::Sent) => next == (LayerWorkerState {
                phase: Phase::OutputBarrier,
                ..self
            }) && action is WaitOutput,
            (Phase::OutputBarrier, Event::Passed) => next == (LayerWorkerState {
                phase: Phase::Receiving,
                ..self
            }) && action is Receive,
            _ => next == self.stopped() && action == Action::<Vec<Spike>>::Stop(
                Err(SNNError::ChannelFault),
            ),
        }
    }
}

/// The order of a tick: a worker that stands ready to receive and is given a
/// batch that its layer can take asks, in this order, to wait for the stage
/// before, to send what its neurons emit on that batch, to wait for the
/// stage after, and to receive again. Nothing is sent before the stage
/// before has arrived; nothing more is received before the stage after has.
pub proof fn lemma_tick_in_order<F: Fn(i32, i32, i64, i64, i64, Vec<i64>) -> i64>(
    model: F,
    batch: Vec<Spike>,
    ready: LayerWorkerState,
    waiting: LayerWorkerState,
    sending: LayerWorkerState,
    sent: LayerWorkerState,
    again: LayerWorkerState,
    first: Action<Vec<Spike>>,
    second: Action<Vec<Spike>>,
    third: Action<Vec<Spike>>,
    fourth: Action<Vec<Spike>>,
)
    requires
        ready.phase == Phase::Receiving,
        ready.layer.takes(batch@),
        ready.layer.tick < i32::MAX,
        ready.reacts(model, Event::Arrived(batch), waiting, first),
        waiting.reacts(model, Event::Passed, sending, second),
        sending.reacts(model, Event::Sent, sent, third),
        sent.reacts(model, Event::Passed, again, fourth),
    ensures
        first is WaitInput,
        second matches Action::Send(out) && ready.layer.steps_to(model, batch@, again.layer, out@),
        third is WaitOutput,
        fourth is Receive,
        again.phase == Phase::Receiving,
{
}

/// The worker of one layer: the layer and its place in the tick.
pub struct LayerWorker {
    layer: NeuralLayer,
    phase: Phase,
    pending: Vec<Spike>,
}

impl View for LayerWorker {
    type V = LayerWorkerState;

    closed spec fn view(&self) -> LayerWorkerState {
        LayerWorkerState { layer: self.layer@, phase: self.phase, pending: self.pending@ }
    }
}

impl LayerWorker {
    /// A worker for a layer, ready to receive. A layer that lacks an
    /// endpoint or a barrier is refused before anything runs.
    pub fn new(layer: NeuralLayer) -> (result: Result<Self, SNNError>)
        requires
            layer@.wf(),
            layer@.complete(),
        ensures
            !layer@.wired() ==> (result matches Err(e) && e == SNNError::Unwired),
            layer@.wired() ==> (result matches Ok(worker) && worker@.wf() && worker@ == (
            LayerWorkerState { layer: layer@, phase: Phase::Receiving, pending: Seq::empty() })),
    {
        match layer.check_wired() {
            Err(e) => Err(e),
            Ok(()) => Ok(Self { layer, phase: Phase::Receiving, pending: Vec::new() }),
        }
    }

    /// The layer as it stands.
    pub fn layer(&self) -> (layer: &NeuralLayer)
        ensures
            layer@ == self@.layer,
    {
        &self.layer
    }

    pub fn phase(&self) -> (phase: Phase)
        ensures
            phase == self@.phase,
    {
        self.phase
    }

    /// The next action of the worker, given what its last action led to.
    pub fn on<F: Fn(i32, i32, i64, i64, i64, Vec<i64>) -> i64>(
        &mut self,
        event: Event<Vec<Spike>>,
        model: &F,
    ) -> (action: Action<Vec<Spike>>)
        requires
            old(self)@.wf(),
            model_is_total(*model),
        ensures
            final(self)@.wf(),
            old(self)@.reacts(*model, event, final(self)@, action),
    {
        match (self.phase, event) {
            (Phase::Receiving, Event::Arrived(batch)) => {
                if self.layer.accepts(&batch) {
                    self.pending = batch;
                    self.phase = Phase::InputBarrier;
                    Action::WaitInput
                } else {
                    self.phase = Phase::Stopped;
                    Action::Stop(Err(SNNError::ChannelFault))
                }
            },
            (Phase::Receiving, Event::Closed) => {
                self.phase = Phase::Stopped;
                Action::Stop(Ok(()))
            },
            (Phase::InputBarrier, Event::Passed) => {
                let out = self.layer.run_neurons(&self.pending, model);
                self.pending = Vec::new();
                self.phase = Phase::Sending;
                Action::Send(out)
            },
            (Phase::Sending, Event::Sent) => {
                self.phase = Phase::OutputBarrier;
                Action::WaitOutput
            },
            (Phase::OutputBarrier, Event::Passed) => {
                self.phase = Phase::Receiving;
                Action::Receive
            },
            _ => {
                self.phase = Phase::Stopped;
                Action::Stop(Err(SNNError::ChannelFault))
            },
        }
    }
}

/// The worker of an input source as plain values.
pub struct SourceWorkerState {
    pub input: InputState,
    pub phase: Phase,
    /// The tick whose value is being sent, or was sent last.
    pub tick: nat,
    /// The number of ticks after which the worker stops.
    pub ticks: nat,
}

impl SourceWorkerState {
    /// The source is well formed and wired, and the worker stands within
    /// the ticks that it is to run for, none of them past the sequence.
    pub open spec fn wf(self) -> bool {
        &&& self.input.wf()
        &&& self.input.senders.len() > 0
        &&& self.tick < self.ticks <= self.input.spikes.len()
    }

    pub open spec fn stopped(self) -> Self {
        SourceWorkerState { phase: Phase::Stopped, ..self }
    }

    /// The tick of a source: send the value of the tick, wait for the first
    /// layer, move on; stop after the last tick. A failed send and an event
    /// that does not answer the last action are faults.
    pub open spec fn reacts(self, event: Event<Spike>, next: Self, action: Action<Spike>) -> bool {
        match (self.phase, event) {
            (Phase::Sending, Event::Sent) => next == (SourceWorkerState {
                phase: Phase::OutputBarrier,
                ..self
            }) && action is WaitOutput,
            (Phase::OutputBarrier, Event::Passed) => if self.tick + 1 < self.ticks {
                next == (SourceWorkerState { phase: Phase::Sending, tick: self.tick + 1, ..self })
                    && action == Action::Send(self.input.spike_at(self.tick + 1 as int))
            } else {
                next == self.stopped() && action == Action::<Spike>::Stop(Ok(()))
            },
            _ => next == self.stopped() && action == Action::<Spike>::Stop(
                Err(SNNError::ChannelFault),
            ),
        }
    }
}

/// The rounds of a source worker whose every send is taken and whose every
/// wait passes: round `j` goes from `sending[j]` over `waiting[j]` to
/// `sending[j + 1]`, asking first `waits[j]` and then `nexts[j]`.
pub open spec fn source_rounds(
    sending: Seq<SourceWorkerState>,
    waiting: Seq<SourceWorkerState>,
    waits: Seq<Action<Spike>>,
    nexts: Seq<Action<Spike>>,
    k: int,
) -> bool {
    &&& sending.len() == k + 1
    &&& waiting.len() == k
    &&& waits.len() == k
    &&& nexts.len() == k
    &&& forall|j: int|
        0 <= j < k ==> (#[trigger] sending[j]).reacts(Event::Sent, waiting[j], waits[j])
            && waiting[j].reacts(Event::Passed, sending[j + 1], nexts[j])
}

/// A source worker for `k` ticks sends `k` spikes, the values of its
/// sequence in order, waits at the barrier once after each of them, and
/// then stops: after the first send, which `start` asks for, every round
/// but the last asks to wait and then to send the next value, and the last
/// asks to wait and then to stop.
pub proof fn lemma_source_sends_every_value_once(
    sending: Seq<SourceWorkerState>,
    waiting: Seq<SourceWorkerState>,
    waits: Seq<Action<Spike>>,
    nexts: Seq<Action<Spike>>,
    k: int,
    j: int,
)
    requires
        source_rounds(sending, waiting, waits, nexts, k),
        sending[0].wf(),
        sending[0].phase == Phase::Sending,
        sending[0].tick == 0,
        sending[0].ticks == k,
        0 <= j < k,
    ensures
        sending[j].phase == Phase::Sending,
        sending[j].tick == j,
        sending[j].ticks == k,
        sending[j].input == sending[0].input,
        waits[j] is WaitOutput,
        j + 1 < k ==> nexts[j] == Action::Send(sending[0].input.spike_at(j + 1)),
        j + 1 == k ==> nexts[j] == Action::<Spike>::Stop(Ok(())) && sending[k].phase
            == Phase::Stopped,
    decreases j,
{
    if j > 0 {
        lemma_source_sends_every_value_once(sending, waiting, waits, nexts, k, j - 1);
        let from = sending[j - 1];
        let over = waiting[j - 1];
        assert(from.reacts(Event::Sent, over, waits[j - 1]) && over.reacts(
            Event::Passed,
            sending[j],
            nexts[j - 1],
        ));
        assert(over == (SourceWorkerState { phase: Phase::OutputBarrier, ..from }));
        assert(over.tick + 1 < over.ticks);
        assert(sending[j] == (SourceWorkerState {
            phase: Phase::Sending,
            tick: over.tick + 1,
            ..over
        }));
    }
    let from = sending[j];
    let over = waiting[j];
    assert(from.reacts(Event::Sent, over, waits[j]) && over.reacts(
        Event::Passed,
        sending[j + 1],
        nexts[j],
    ));
    assert(over == (SourceWorkerState { phase: Phase::OutputBarrier, ..from }));
}

/// The worker of one input source.
pub struct SourceWorker {
    input: Input,
    phase: Phase,
    tick: usize,
    ticks: usize,
}

impl View for SourceWorker {
    type V = SourceWorkerState;

    closed spec fn view(&self) -> SourceWorkerState {
        SourceWorkerState {
            input: self.input@,
            phase: self.phase,
            tick: self.tick as nat,
            ticks: self.ticks as nat,
        }
    }
}

impl SourceWorker {
    /// A worker that sends the first `ticks` values of a source, about to
    /// send the first. The sources of one layer all run for as long as the
    /// shortest of them lasts. A source without an outbound link is refused
    /// before anything runs; so is a number of ticks that is zero or larger
    /// than the source is long.
    pub fn new(input: Input, ticks: usize) -> (result: Result<Self, SNNError>)
        requires
            input@.wf(),
        ensures
            input@.senders.len() == 0 ==> (result matches Err(e) && e == SNNError::Unwired),
            input@.senders.len() > 0 && !(0 < ticks <= input@.spikes.len()) ==> (
            result matches Err(e) && e == SNNError::IndexOutOfRange),
            input@.senders.len() > 0 && 0 < ticks <= input@.spikes.len() ==> (
            result matches Ok(worker) && worker@.wf() && worker@ == (SourceWorkerState {
                input: input@,
                phase: Phase::Sending,
                tick: 0,
                ticks: ticks as nat,
            })),
    {
        if input.is_empty_sender() {
            Err(SNNError::Unwired)
        } else if ticks == 0 || ticks > input.len() {
            Err(SNNError::IndexOutOfRange)
        } else {
            Ok(Self { input, phase: Phase::Sending, tick: 0, ticks })
        }
    }

    /// The first action: to send the value of the first tick.
    pub fn start(&self) -> (action: Action<Spike>)
        requires
            self@.wf(),
            self@.phase == Phase::Sending,
            self@.tick == 0,
        ensures
            action == Action::Send(self@.input.spike_at(0)),
    {
        match self.input.emit(0) {
            Some(spike) => Action::Send(spike),
            None => Action::Stop(Ok(())),
        }
    }

    /// The next action of the worker, given what its last action led to.
    pub fn on(&mut self, event: Event<Spike>) -> (action: Action<Spike>)
        requires
            old(self)@.wf(),
        ensures
            final(self)@.wf(),
            old(self)@.reacts(event, final(self)@, action),
    {
        match (self.phase, event) {
            (Phase::Sending, Event::Sent) => {
                self.phase = Phase::OutputBarrier;
                Action::WaitOutput
            },
            (Phase::OutputBarrier, Event::Passed) => {
                if self.tick + 1 < self.ticks {
                    match self.input.emit(self.tick + 1) {
                        Some(spike) => {
                            self.tick = self.tick + 1;
                            self.phase = Phase::Sending;
                            Action::Send(spike)
                        },
                        None => {
                            self.phase = Phase::Stopped;
                            Action::Stop(Ok(()))
                        },
                    }
                } else {
                    self.phase = Phase::Stopped;
                    Action::Stop(Ok(()))
                }
            },
            _ => {
                self.phase = Phase::Stopped;
                Action::Stop(Err(SNNError::ChannelFault))
            },
        }
    }

    pub fn phase(&self) -> (phase: Phase)
        ensures
            phase == self@.phase,
    {
        self.phase
    }
}

/// The worker of the output monitor as plain values.
pub struct SinkWorkerState {
    pub monitor: MonitorState,
    pub phase: Phase,
    pub pending: Seq<Spike>,
}

impl SinkWorkerState {
    /// What waits at the barrier is a batch that the monitor has room for,
    /// and one more tick can be counted.
    pub open spec fn wf(self) -> bool {
        self.phase == Phase::InputBarrier ==> all_binary(self.pending)
            && self.monitor.has_room_for(self.pending) && self.monitor.ts < i32::MAX
    }

    pub open spec fn stopped(self) -> Self {
        SinkWorkerState { phase: Phase::Stopped, ..self }
    }

    /// The batch is one that the worker takes: binary, not empty, and with
    /// room for as many ticks as it has spikes.
    pub open spec fn takes(self, batch: Seq<Spike>) -> bool {
        all_binary(batch) && batch.len() > 0 && self.monitor.room_for(batch.len() as int)
    }

    /// The tick of the monitor: receive a batch, or stop when the last layer
    /// has closed; wait for the last layer; book the batch and count the
    /// tick; and again. A
    /// spike that cannot be booked stops the worker with the reason; a
    /// batch that it cannot take and an event that does not answer the last
    /// action are faults.
    pub open spec fn reacts(
        self,
        event: Event<Vec<Spike>>,
        next: Self,
        action: Action<Vec<Spike>>,
    ) -> bool {
        match (self.phase, event) {
            (Phase::Receiving, Event::Arrived(batch)) => if self.takes(batch@) {
                next == (SinkWorkerState { phase: Phase::InputBarrier, pending: batch@, ..self })
                    && action is WaitInput
            } else {
                next == self.stopped() && action == Action::<Vec<Spike>>::Stop(
                    Err(SNNError::ChannelFault),
                )
            },
            (Phase::Receiving, Event::Closed) => next == self.stopped() && action == Action::<
                Vec<Spike>,
            >::Stop(Ok(())),
            (Phase::InputBarrier, Event::Passed) => {
                let n = self.monitor.outputs.len();
                if forall|j: int|
                    0 <= j < self.pending.len() ==> crate::output::bookable(
                        #[trigger] self.pending[j],
                        n,
                    ) {
                    &&& action is Receive
                    &&& next.phase == Phase::Receiving
                    &&& next.pending == Seq::<Spike>::empty()
                    &&& next.monitor.ts == self.monitor.ts + 1
                    &&& next.monitor.receivers == self.monitor.receivers
                    &&& self.monitor.counted(
                        self.pending,
                        self.pending.len() as int,
                        next.monitor.outputs,
                    )
                } else {
                    &&& action matches Action::Stop(Err(e))
                    &&& next.phase == Phase::Stopped
                    &&& exists|k: int| #[trigger] self.monitor.stops_at(self.pending, k, next.monitor, e)
                }
            },
            _ => next == self.stopped() && action == Action::<Vec<Spike>>::Stop(
                Err(SNNError::ChannelFault),
            ),
        }
    }
}

/// The rounds of a sink worker that is handed one batch after the other:
/// round `j` goes from `ready[j]` over `waiting[j]` to `ready[j + 1]` on
/// `batches[j]`, asking first `waits[j]` and then `nexts[j]`.
pub open spec fn sink_rounds(
    ready: Seq<SinkWorkerState>,
    waiting: Seq<SinkWorkerState>,
    batches: Seq<Vec<Spike>>,
    waits: Seq<Action<Vec<Spike>>>,
    nexts: Seq<Action<Vec<Spike>>>,
    k: int,
) -> bool {
    &&& ready.len() == k + 1
    &&& waiting.len() == k
    &&& batches.len() == k
    &&& waits.len() == k
    &&& nexts.len() == k
    &&& forall|j: int|
        0 <= j < k ==> (#[trigger] ready[j]).reacts(
            Event::Arrived(batches[j]),
            waiting[j],
            waits[j],
        ) && waiting[j].reacts(Event::Passed, ready[j + 1], nexts[j])
}

/// Every spike of the batch names a neuron that the monitor keeps a count for.
pub open spec fn all_bookable(batch: Seq<Spike>, n: nat) -> bool {
    forall|i: int| 0 <= i < batch.len() ==> crate::output::bookable(#[trigger] batch[i], n)
}

/// A sink worker that is handed `k` batches which it can take and book, and
/// then finds the channel closed, has counted exactly `k` ticks when it
/// stops, and stops for good: it neither stops before the last batch nor
/// asks for more after closure.
pub proof fn lemma_sink_counts_every_batch(
    ready: Seq<SinkWorkerState>,
    waiting: Seq<SinkWorkerState>,
    batches: Seq<Vec<Spike>>,
    waits: Seq<Action<Vec<Spike>>>,
    nexts: Seq<Action<Vec<Spike>>>,
    k: int,
    j: int,
)
    requires
        sink_rounds(ready, waiting, batches, waits, nexts, k),
        ready[0].phase == Phase::Receiving,
        forall|t: int|
            0 <= t < k ==> (#[trigger] ready[t]).takes(batches[t]@) && all_bookable(
                batches[t]@,
                ready[0].monitor.outputs.len(),
            ),
        0 <= j <= k,
    ensures
        ready[j].phase == Phase::Receiving,
        ready[j].monitor.ts == ready[0].monitor.ts + j,
        ready[j].monitor.outputs.len() == ready[0].monitor.outputs.len(),
        j < k ==> waits[j] is WaitInput,
        j > 0 ==> nexts[j - 1] is Receive,
        forall|last: SinkWorkerState, stop: Action<Vec<Spike>>|
            #![trigger ready[j].reacts(Event::Closed, last, stop)]
            ready[j].reacts(Event::Closed, last, stop) ==> stop == Action::<Vec<Spike>>::Stop(
                Ok(()),
            ) && last.phase == Phase::Stopped && last.monitor == ready[j].monitor,
    decreases j,
{
    if j > 0 {
        lemma_sink_counts_every_batch(ready, waiting, batches, waits, nexts, k, j - 1);
        assert(ready[j - 1].reacts(Event::Arrived(batches[j - 1]), waiting[j - 1], waits[j - 1]));
        assert(ready[j - 1].takes(batches[j - 1]@));
        assert(all_bookable(batches[j - 1]@, ready[0].monitor.outputs.len()));
        assert(waiting[j - 1].reacts(Event::Passed, ready[j], nexts[j - 1]));
    }
    if j < k {
        assert(ready[j].reacts(Event::Arrived(batches[j]), waiting[j], waits[j]));
        assert(ready[j].takes(batches[j]@));
    }
}

/// The worker of the output monitor.
pub struct SinkWorker {
    monitor: OutputMonitor,
    phase: Phase,
    pending: Vec<Spike>,
}

impl View for SinkWorker {
    type V = SinkWorkerState;

    closed spec fn view(&self) -> SinkWorkerState {
        SinkWorkerState { monitor: self.monitor@, phase: self.phase, pending: self.pending@ }
    }
}

impl SinkWorker {
    /// A worker for a monitor, ready to receive. A monitor without an
    /// inbound link is refused before anything runs.
    pub fn new(monitor: OutputMonitor) -> (result: Result<Self, SNNError>)
        ensures
            monitor@.receivers.len() == 0 ==> (result matches Err(e) && e == SNNError::Unwired),
            monitor@.receivers.len() > 0 ==> (result matches Ok(worker) && worker@.wf()
                && worker@ == (SinkWorkerState {
                monitor: monitor@,
                phase: Phase::Receiving,
                pending: Seq::empty(),
            })),
    {
        if monitor.is_empty_receiver() {
            Err(SNNError::Unwired)
        } else {
            Ok(Self { monitor, phase: Phase::Receiving, pending: Vec::new() })
        }
    }

    /// The next action of the worker, given what its last action led to.
    pub fn on(&mut self, event: Event<Vec<Spike>>) -> (action: Action<Vec<Spike>>)
        requires
            old(self)@.wf(),
        ensures
            final(self)@.wf(),
            old(self)@.reacts(event, final(self)@, action),
    {
        match (self.phase, event) {
            (Phase::Receiving, Event::Arrived(batch)) => {
                if batch.len() > 0 && check_all_binary(&batch) && self.monitor.has_room(
                    batch.len(),
                ) {
                    proof {
                        lemma_room_for_batch(self.monitor@, batch@);
                    }
                    self.pending = batch;
                    self.phase = Phase::InputBarrier;
                    Action::WaitInput
                } else {
                    self.phase = Phase::Stopped;
                    Action::Stop(Err(SNNError::ChannelFault))
                }
            },
            (Phase::Receiving, Event::Closed) => {
                self.phase = Phase::Stopped;
                Action::Stop(Ok(()))
            },
            (Phase::InputBarrier, Event::Passed) => {
                let mut batch: Vec<Spike> = Vec::new();
                std::mem::swap(&mut batch, &mut self.pending);
                let ghost taken = batch@;
                let ghost prior = self.monitor@;
                match self.monitor.receive(Some(batch)) {
                    Ok(()) => {
                        self.monitor.count_tick();
                        self.phase = Phase::Receiving;
                        Action::Receive
                    },
                    Err(e) => {
                        self.phase = Phase::Stopped;
                        proof {
                            let k = choose|k: int| #[trigger]
                                prior.stops_at(taken, k, self.monitor@, e);
                            assert(!crate::output::bookable(taken[k], prior.outputs.len()));
                            assert(old(self)@.monitor.stops_at(
                                old(self)@.pending,
                                k,
                                self@.monitor,
                                e,
                            ));
                        }
                        Action::Stop(Err(e))
                    },
                }
            },
            _ => {
                self.phase = Phase::Stopped;
                Action::Stop(Err(SNNError::ChannelFault))
            },
        }
    }

    /// The counts, once the worker has stopped.
    pub fn into_outputs(self) -> (counts: Vec<i32>)
        ensures
            counts@ == self@.monitor.outputs,
    {
        self.monitor.into_outputs()
    }

    /// The monitor as it stands.
    pub fn monitor(&self) -> (monitor: &OutputMonitor)
        ensures
            monitor@ == self@.monitor,
    {
        &self.monitor
    }
}

/// Tells whether every spike of a batch carries 0 or 1.
pub fn check_all_binary(batch: &Vec<Spike>) -> (ok: bool)
    ensures
        ok == all_binary(batch@),
{
    let mut i: usize = 0;
    while i < batch.len()
        invariant
            i <= batch.len(),
            forall|j: int| 0 <= j < i ==> (#[trigger] batch@[j]).is_binary(),
        decreases batch.len() - i,
    {
        if !batch[i].check_binary() {
            return false;
        }
        i = i + 1;
    }
    true
}

} // verus!
