use vstd::prelude::*;
use crate::errors::SNNError;
use crate::spike::{all_binary, Spike};

verus! {

/// The output monitor as plain values.
pub struct MonitorState {
    /// The links that the monitor listens on.
    pub receivers: Seq<usize>,
    /// For each neuron of the last layer, the spikes counted so far.
    pub outputs: Seq<i32>,
    /// The number of ticks counted.
    pub ts: i32,
}

/// The spike names a neuron that the monitor keeps a count for.
pub open spec fn bookable(spike: Spike, n: nat) -> bool {
    spike.n_neuron matches Some(index) && 0 <= index < n
}

/// What the spikes of a batch add to the count of neuron `i`.
pub open spec fn booked(batch: Seq<Spike>, i: int) -> int
    decreases batch.len(),
{
    if batch.len() == 0 {
        0
    } else {
        let last = batch.last();
        booked(batch.drop_last(), i) + if last.n_neuron matches Some(index) && index == i {
            last.output as int
        } else {
            0
        }
    }
}

impl MonitorState {
    /// A monitor that has seen nothing: all counts at zero, nothing attached.
    pub open spec fn fresh(n: nat) -> Self {
        MonitorState { receivers: Seq::empty(), outputs: Seq::new(n, |i: int| 0i32), ts: 0 }
    }

    /// Neither the clock nor a count overflows within `k` more ticks in
    /// which every neuron fires at most once.
    pub open spec fn room_for(self, k: int) -> bool {
        &&& 0 <= self.ts
        &&& self.ts + k <= i32::MAX
        &&& forall|i: int| 0 <= i < self.outputs.len() ==> #[trigger] self.outputs[i] + k <= i32::MAX
    }

    /// Booking the batch overflows no count.
    pub open spec fn has_room_for(self, batch: Seq<Spike>) -> bool {
        forall|i: int|
            0 <= i < self.outputs.len() ==> #[trigger] self.outputs[i] + booked(batch, i)
                <= i32::MAX
    }

    /// Spike `k` is the first of the batch that cannot be booked: those before
    /// it are, the clock stays, and the error tells why.
    pub open spec fn stops_at(self, batch: Seq<Spike>, k: int, after: Self, e: SNNError) -> bool {
        &&& 0 <= k < batch.len()
        &&& forall|j: int| 0 <= j < k ==> bookable(#[trigger] batch[j], self.outputs.len())
        &&& !bookable(batch[k], self.outputs.len())
        &&& e == if batch[k].n_neuron is None {
            SNNError::Unwired
        } else {
            SNNError::IndexOutOfRange
        }
        &&& self.counted(batch, k, after.outputs)
        &&& after.ts == self.ts
    }

    /// The counts after the first `k` spikes of a batch are booked.
    pub open spec fn counted(self, batch: Seq<Spike>, k: int, after: Seq<i32>) -> bool {
        &&& after.len() == self.outputs.len()
        &&& forall|i: int|
            0 <= i < after.len() ==> #[trigger] after[i] == self.outputs[i] + booked(
                batch.take(k),
                i,
            )
    }
}

/// A binary batch adds to no count less than one of its prefixes does.
pub proof fn lemma_booked_grows(batch: Seq<Spike>, k: int, i: int)
    requires
        all_binary(batch),
        0 <= k <= batch.len(),
    ensures
        0 <= booked(batch.take(k), i) <= booked(batch, i),
    decreases batch.len() - k,
{
    if k == batch.len() {
        assert(batch.take(k) == batch);
        lemma_booked_nonnegative(batch, i);
    } else {
        lemma_booked_grows(batch, k + 1, i);
        assert(batch.take(k + 1).drop_last() == batch.take(k));
        assert(batch.take(k + 1).last() == batch[k]);
        assert(batch[k].is_binary());
        lemma_booked_nonnegative(batch.take(k), i);
    }
}

/// A binary batch takes nothing away from a count.
pub proof fn lemma_booked_nonnegative(batch: Seq<Spike>, i: int)
    requires
        all_binary(batch),
    ensures
        0 <= booked(batch, i),
    decreases batch.len(),
{
    if batch.len() > 0 {
        assert(batch.last().is_binary());
        lemma_booked_nonnegative(batch.drop_last(), i);
    }
}

/// A binary batch adds to no count more than it has spikes.
pub proof fn lemma_booked_at_most_len(batch: Seq<Spike>, i: int)
    requires
        all_binary(batch),
    ensures
        booked(batch, i) <= batch.len(),
    decreases batch.len(),
{
    if batch.len() > 0 {
        assert(batch.last().is_binary());
        lemma_booked_at_most_len(batch.drop_last(), i);
    }
}

/// A monitor with room for as many ticks as a binary batch has spikes has
/// room for the batch.
pub proof fn lemma_room_for_batch(monitor: MonitorState, batch: Seq<Spike>)
    requires
        all_binary(batch),
        batch.len() > 0,
        monitor.room_for(batch.len() as int),
    ensures
        monitor.has_room_for(batch),
        monitor.ts < i32::MAX,
{
    assert forall|i: int| 0 <= i < monitor.outputs.len() implies #[trigger] monitor.outputs[i]
        + booked(batch, i) <= i32::MAX by {
        lemma_booked_at_most_len(batch, i);
    }
}

/// Of a batch whose spikes are tagged with their own places, the spike at
/// place `i` is the only one that adds to the count of neuron `i`.
pub proof fn lemma_booked_in_order(batch: Seq<Spike>, i: int)
    requires
        batch.len() <= i32::MAX,
        0 <= i,
        forall|p: int| 0 <= p < batch.len() ==> (#[trigger] batch[p]).n_neuron == Some(p as i32),
    ensures
        booked(batch, i) == if i < batch.len() {
            batch[i].output as int
        } else {
            0
        },
    decreases batch.len(),
{
    if batch.len() > 0 {
        let head = batch.drop_last();
        assert forall|p: int| 0 <= p < head.len() implies (#[trigger] head[p]).n_neuron == Some(
            p as i32,
        ) by {
            assert(head[p] == batch[p]);
        }
        lemma_booked_in_order(head, i);
        assert(batch.last() == batch[batch.len() - 1]);
        if i < head.len() {
            assert(head[i] == batch[i]);
        }
    }
}

/// The end of the pipeline: counts, for each neuron of the last layer, the
/// spikes that it emitted.
pub struct OutputMonitor {
    receivers: Vec<usize>,
    outputs: Vec<i32>,
    ts: i32,
}

impl View for OutputMonitor {
    type V = MonitorState;

    closed spec fn view(&self) -> MonitorState {
        MonitorState { receivers: self.receivers@, outputs: self.outputs@, ts: self.ts }
    }
}

impl OutputMonitor {
    /// A monitor for a last layer of `n_lastlayer` neurons, all counts at zero.
    pub fn new(n_lastlayer: usize) -> (monitor: Self)
        ensures
            monitor@ == MonitorState::fresh(n_lastlayer as nat),
    {
        let mut outputs: Vec<i32> = Vec::new();
        let mut i: usize = 0;
        while i < n_lastlayer
            invariant
                i <= n_lastlayer,
                outputs@ == Seq::new(i as nat, |i: int| 0i32),
            decreases n_lastlayer - i,
        {
            outputs.push(0);
            i = i + 1;
        }
        let monitor = Self { receivers: Vec::new(), outputs, ts: 0 };
        assert(monitor@.receivers =~= Seq::<usize>::empty());
        monitor
    }

    /// Attaches one more inbound link.
    pub fn add_receiver(&mut self, link: usize)
        ensures
            final(self)@ == (MonitorState {
                receivers: old(self)@.receivers.push(link),
                ..old(self)@
            }),
    {
        self.receivers.push(link);
    }

    /// Takes in what arrived on the inbound endpoint for one tick.
    ///
    /// A closed endpoint changes nothing and is reported as such. Of a batch,
    /// the spikes are booked in order up to the first that names no neuron
    /// (the last layer is not wired to the monitor) or one that the monitor
    /// has no count for. The clock is left alone: whoever drives the monitor
    /// counts the tick after a batch that was taken in.
    pub fn receive(&mut self, arrived: Option<Vec<Spike>>) -> (result: Result<(), SNNError>)
        requires
            arrived matches Some(batch) ==> all_binary(batch@) && old(self)@.has_room_for(batch@),
        ensures
            final(self)@.receivers == old(self)@.receivers,
            arrived is None ==> result == Err::<(), SNNError>(SNNError::ChannelClosed)
                && final(self)@ == old(self)@,
            arrived matches Some(batch) ==> match result {
                Ok(()) => {
                    &&& forall|j: int|
                        0 <= j < batch@.len() ==> bookable(
                            #[trigger] batch@[j],
                            old(self)@.outputs.len(),
                        )
                    &&& old(self)@.counted(batch@, batch@.len() as int, final(self)@.outputs)
                    &&& final(self)@.ts == old(self)@.ts
                },
                Err(e) => exists|k: int| #[trigger]
                    old(self)@.stops_at(batch@, k, final(self)@, e),
            },
    {
        let batch = match arrived {
            Some(batch) => batch,
            None => {
                return Err(SNNError::ChannelClosed);
            },
        };
        let n = self.outputs.len();
        let mut k: usize = 0;
        assert(batch@.take(0) == Seq::<Spike>::empty());
        while k < batch.len()
            invariant
                k <= batch.len(),
                arrived == Some(batch),
                n == old(self)@.outputs.len(),
                all_binary(batch@),
                old(self)@.has_room_for(batch@),
                self.receivers == old(self).receivers,
                self.ts == old(self).ts,
                forall|j: int| 0 <= j < k ==> bookable(#[trigger] batch@[j], n as nat),
                old(self)@.counted(batch@, k as int, self.outputs@),
            decreases batch.len() - k,
        {
            let spike = batch[k];
            let ghost before = self.outputs@;
            proof {
                assert(batch@.take(k + 1).drop_last() == batch@.take(k as int));
                assert(batch@.take(k + 1).last() == spike);
                assert(spike.is_binary());
            }
            match spike.n_neuron {
                None => {
                    assert(arrived matches Some(b) ==> old(self)@.stops_at(
                        b@,
                        k as int,
                        self@,
                        SNNError::Unwired,
                    ));
                    return Err(SNNError::Unwired);
                },
                Some(index) => {
                    if index < 0 || index as usize >= n {
                        assert(arrived matches Some(b) ==> old(self)@.stops_at(
                            b@,
                            k as int,
                            self@,
                            SNNError::IndexOutOfRange,
                        ));
                        return Err(SNNError::IndexOutOfRange);
                    }
                    let at = index as usize;
                    proof {
                        lemma_booked_grows(batch@, k + 1, at as int);
                    }
                    let count = self.outputs[at] + spike.output as i32;
                    self.outputs.set(at, count);
                },
            }
            assert forall|i: int| 0 <= i < self.outputs@.len() implies #[trigger] self.outputs@[i]
                == old(self)@.outputs[i] + booked(batch@.take(k + 1), i) by {
                assert(before[i] == old(self)@.outputs[i] + booked(batch@.take(k as int), i));
            }
            k = k + 1;
        }
        assert(batch@.take(k as int) == batch@);
        Ok(())
    }

    /// Counts one tick: a batch has been taken in.
    pub fn count_tick(&mut self)
        requires
            old(self)@.ts < i32::MAX,
        ensures
            final(self)@ == (MonitorState { ts: (old(self)@.ts + 1) as i32, ..old(self)@ }),
    {
        self.ts = self.ts + 1;
    }

    /// The counts so far.
    pub fn outputs(&self) -> (counts: &Vec<i32>)
        ensures
            counts@ == self@.outputs,
    {
        &self.outputs
    }

    /// The counts, once the stream is closed.
    pub fn into_outputs(self) -> (counts: Vec<i32>)
        ensures
            counts@ == self@.outputs,
    {
        self.outputs
    }

    /// The number of ticks counted.
    pub fn ticks(&self) -> (ts: i32)
        ensures
            ts == self@.ts,
    {
        self.ts
    }

    /// Tells whether `k` more ticks overflow neither the clock nor a count,
    /// however often the neurons fire.
    pub fn has_room(&self, k: usize) -> (ok: bool)
        ensures
            ok == self@.room_for(k as int),
    {
        if k > i32::MAX as usize || self.ts < 0 || self.ts > i32::MAX - k as i32 {
            return false;
        }
        let ticks = k as i32;
        let mut i: usize = 0;
        while i < self.outputs.len()
            invariant
                i <= self.outputs.len(),
                0 <= ticks == k,
                0 <= self.ts,
                self.ts + ticks <= i32::MAX,
                forall|j: int| 0 <= j < i ==> #[trigger] self@.outputs[j] + ticks <= i32::MAX,
            decreases self.outputs.len() - i,
        {
            if self.outputs[i] > i32::MAX - ticks {
                assert(self@.outputs[i as int] + ticks > i32::MAX);
                return false;
            }
            i = i + 1;
        }
        true
    }

    pub fn is_empty_receiver(&self) -> (empty: bool)
        ensures
            empty == (self@.receivers.len() == 0),
    {
        self.receivers.len() == 0
    }
}

} // verus!
