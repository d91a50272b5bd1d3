use vstd::prelude::*;
use crate::errors::SNNError;
use crate::spike::Spike;

verus! {

/// An input source as plain values.
pub struct InputState {
    /// The value to emit at each tick, in order.
    pub spikes: Seq<i8>,
    /// The links that the source sends on.
    pub senders: Seq<usize>,
    /// The position of the source among the sources of its layer.
    pub index: Option<i32>,
}

/// Every value of the sequence is 0 or 1.
pub open spec fn binary_values(values: Seq<i8>) -> bool {
    forall|i: int| 0 <= i < values.len() ==> (#[trigger] values[i] == 0 || values[i] == 1)
}

impl InputState {
    /// A source has something to emit, and emits nothing but 0 and 1.
    pub open spec fn wf(self) -> bool {
        self.spikes.len() > 0 && binary_values(self.spikes)
    }

    /// The spike that the source emits at a tick.
    pub open spec fn spike_at(self, tick: int) -> Spike {
        Spike { output: self.spikes[tick], n_neuron: self.index }
    }

    /// Everything that the source emits before it closes.
    pub open spec fn train(self) -> Seq<Spike> {
        Seq::new(self.spikes.len(), |tick: int| self.spike_at(tick))
    }
}

/// One input line: a finite sequence of spike values, one per tick.
pub struct Input {
    spikes: Vec<i8>,
    senders: Vec<usize>,
    index: Option<i32>,
}

impl View for Input {
    type V = InputState;

    closed spec fn view(&self) -> InputState {
        InputState { spikes: self.spikes@, senders: self.senders@, index: self.index }
    }
}

impl Input {
    /// A source that emits the given values. An empty sequence and a value
    /// other than 0 and 1 are refused.
    pub fn new(spikes: Vec<i8>) -> (result: Result<Self, SNNError>)
        ensures
            spikes@.len() == 0 ==> result == Err::<Self, SNNError>(SNNError::EmptyInputSet),
            spikes@.len() > 0 && !binary_values(spikes@) ==> result == Err::<Self, SNNError>(
                SNNError::MalformedInput,
            ),
            spikes@.len() > 0 && binary_values(spikes@) ==> (result matches Ok(input) && input@ == (
            InputState { spikes: spikes@, senders: Seq::empty(), index: None })),
    {
        if spikes.len() == 0 {
            return Err(SNNError::EmptyInputSet);
        }
        let mut i: usize = 0;
        while i < spikes.len()
            invariant
                i <= spikes.len(),
                binary_values(spikes@.take(i as int)),
            decreases spikes.len() - i,
        {
            if spikes[i] != 0 && spikes[i] != 1 {
                return Err(SNNError::MalformedInput);
            }
            assert forall|j: int| 0 <= j < i + 1 implies (#[trigger] spikes@.take(i + 1)[j] == 0
                || spikes@.take(i + 1)[j] == 1) by {
                if j < i {
                    assert(spikes@.take(i as int)[j] == spikes@[j]);
                }
            }
            i = i + 1;
        }
        assert(spikes@.take(i as int) == spikes@);
        Ok(Self { spikes, senders: Vec::new(), index: None })
    }

    /// The spike for a tick, or nothing once the sequence is exhausted: the
    /// source then closes.
    pub fn emit(&self, tick: usize) -> (spike: Option<Spike>)
        ensures
            tick < self@.spikes.len() ==> spike == Some(self@.spike_at(tick as int)),
            tick >= self@.spikes.len() ==> spike is None,
    {
        if tick < self.spikes.len() {
            Some(Spike::new(self.spikes[tick], self.index))
        } else {
            None
        }
    }

    /// Everything that the source sends, in order. A source without an
    /// outbound link reports that it is not wired.
    pub fn run(self) -> (result: Result<Vec<Spike>, SNNError>)
        ensures
            self@.senders.len() == 0 ==> result == Err::<Vec<Spike>, SNNError>(SNNError::Unwired),
            self@.senders.len() > 0 ==> (result matches Ok(train) && train@ == self@.train()),
    {
        if self.is_empty_sender() {
            return Err(SNNError::Unwired);
        }
        Ok(self.train())
    }

    /// The spikes of all ticks, in order.
    pub fn train(&self) -> (train: Vec<Spike>)
        ensures
            train@ == self@.train(),
    {
        let mut train: Vec<Spike> = Vec::new();
        let mut tick: usize = 0;
        while tick < self.spikes.len()
            invariant
                tick <= self.spikes.len(),
                train@ == self@.train().take(tick as int),
            decreases self.spikes.len() - tick,
        {
            let spike = Spike::new(self.spikes[tick], self.index);
            train.push(spike);
            assert(train@ == self@.train().take(tick + 1));
            tick = tick + 1;
        }
        assert(self@.train().take(tick as int) == self@.train());
        train
    }

    pub fn is_empty_sender(&self) -> (empty: bool)
        ensures
            empty == (self@.senders.len() == 0),
    {
        self.senders.len() == 0
    }

    /// Attaches one more outbound link.
    pub fn add_sender(&mut self, link: usize)
        ensures
            final(self)@ == (InputState { senders: old(self)@.senders.push(link), ..old(self)@ }),
    {
        self.senders.push(link);
    }

    /// Gives the source its position among the sources of a layer.
    pub fn set_index(&mut self, index: i32)
        ensures
            final(self)@ == (InputState { index: Some(index), ..old(self)@ }),
    {
        self.index = Some(index);
    }

    /// The number of ticks for which the source has a value.
    pub fn len(&self) -> (n: usize)
        ensures
            n == self@.spikes.len(),
    {
        self.spikes.len()
    }
}

} // verus!
