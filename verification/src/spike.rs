use vstd::prelude::*;

verus! {

/// A binary event, tagged with the position of the neuron or source that
/// emitted it. The tag is absent only on a spike that no stage has emitted.
#[derive(Clone, Copy, Debug, PartialEq, Eq, Structural)]
pub struct Spike {
    pub output: i8,
    pub n_neuron: Option<i32>,
}

impl DeepView for Spike {
    type V = Spike;

    open spec fn deep_view(&self) -> Spike {
        *self
    }
}

impl Spike {
    /// A spike carries 0 or 1.
    pub open spec fn is_binary(self) -> bool {
        self.output == 0 || self.output == 1
    }

    pub fn new(output: i8, n_neuron: Option<i32>) -> (spike: Self)
        ensures
            spike.output == output,
            spike.n_neuron == n_neuron,
    {
        Self { output, n_neuron }
    }

    /// Tells whether the spike carries 0 or 1.
    pub fn check_binary(&self) -> (ok: bool)
        ensures
            ok == self.is_binary(),
    {
        self.output == 0 || self.output == 1
    }
}

/// Every spike of the batch carries 0 or 1.
pub open spec fn all_binary(batch: Seq<Spike>) -> bool {
    forall|i: int| 0 <= i < batch.len() ==> (#[trigger] batch[i]).is_binary()
}

/// Every spike of the batch carries 0.
pub open spec fn all_silent(batch: Seq<Spike>) -> bool {
    forall|i: int| 0 <= i < batch.len() ==> (#[trigger] batch[i]).output == 0
}

} // verus!
