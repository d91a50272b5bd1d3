use vstd::prelude::*;
use crate::errors::SNNError;
use crate::spike::Spike;

verus! {

/// A weighted edge into a neuron. The weight is never zero: where two
/// neurons are not connected there is no synapse.
pub struct Synapse {
    weight: i64,
}

impl Synapse {
    #[verifier::type_invariant]
    spec fn connected(self) -> bool {
        self.weight != 0
    }

    pub closed spec fn weight(self) -> i64 {
        self.weight
    }

    /// What a spike contributes to the membrane behind a weight.
    pub open spec fn contribution(weight: i64, spike: Spike) -> int {
        spike.output * weight
    }

    /// A synapse of the given weight, or nothing for weight zero.
    pub fn new(weight: i64) -> (synapse: Option<Self>)
        ensures
            weight == 0 <==> synapse is None,
            synapse matches Some(s) ==> s.weight() == weight,
    {
        if weight == 0 {
            None
        } else {
            Some(Self { weight })
        }
    }

    /// The contribution of one spike.
    pub fn weigh(&self, spike: Spike) -> (value: i64)
        requires
            spike.is_binary(),
        ensures
            value == Self::contribution(self.weight(), spike),
            self.weight() != 0,
    {
        proof {
            use_type_invariant(self);
        }
        if spike.output == 1 {
            self.weight
        } else {
            0
        }
    }

    /// Turns what arrived on the inbound endpoint into a contribution. A
    /// closed endpoint is told apart from every other outcome.
    pub fn receive(&self, arrived: Option<Spike>) -> (result: Result<i64, SNNError>)
        requires
            arrived matches Some(spike) ==> spike.is_binary(),
        ensures
            match arrived {
                Some(spike) => result == Ok::<i64, SNNError>(
                    Self::contribution(self.weight(), spike) as i64,
                ),
                None => result == Err::<i64, SNNError>(SNNError::ChannelClosed),
            },
    {
        match arrived {
            Some(spike) => Ok(self.weigh(spike)),
            None => Err(SNNError::ChannelClosed),
        }
    }

    pub fn get_weight(&self) -> (weight: i64)
        ensures
            weight == self.weight(),
            weight != 0,
    {
        proof {
            use_type_invariant(self);
        }
        self.weight
    }
}

} // verus!
