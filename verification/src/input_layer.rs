use vstd::prelude::*;
use vstd::string::*;
use crate::errors::SNNError;
use crate::input::{Input, InputState};
use crate::input_text::{input_lines, is_bit, lemma_nonempty_keeps, nonempty, readable, split, values_of};
use crate::spike::Spike;
use crate::text::{append_decimal, decimal};

verus! {

/// The input stage as plain values: its sources, in order.
pub struct InputLayerState {
    pub inputs: Seq<InputState>,
}

/// The length of the shortest of the sequences, 0 where there is none.
pub open spec fn shortest(inputs: Seq<InputState>) -> nat
    decreases inputs.len(),
{
    if inputs.len() == 0 {
        0
    } else if inputs.len() == 1 {
        inputs[0].spikes.len()
    } else {
        let rest = shortest(inputs.drop_last());
        let last = inputs.last().spikes.len();
        if last < rest {
            last
        } else {
            rest
        }
    }
}

/// The source that line `i` of a text stands for, once it has its place in
/// a layer.
pub open spec fn source_of(line: Seq<u8>, i: int) -> InputState {
    InputState { spikes: values_of(line), senders: Seq::empty(), index: Some(i as i32) }
}

/// The source that a line stands for before it has a place in a layer.
pub open spec fn unplaced(line: Seq<u8>) -> InputState {
    InputState { spikes: values_of(line), senders: Seq::empty(), index: None }
}

/// The sources are those that the lines stand for, none placed yet.
pub open spec fn held(inputs: Seq<Input>, lines: Seq<Seq<u8>>) -> bool {
    inputs.len() == lines.len() && forall|j: int|
        0 <= j < inputs.len() ==> (#[trigger] inputs[j])@ == unplaced(lines[j])
}

/// What a text stands for: one source for each of its input lines, or the
/// reason why it stands for none.
pub open spec fn parsed(text: Seq<u8>, delimiter: u8) -> Result<InputLayerState, SNNError> {
    let lines = input_lines(text, delimiter);
    if !readable(text, delimiter) {
        Err(SNNError::MalformedInput)
    } else if lines.len() > i32::MAX {
        Err(SNNError::IndexOutOfRange)
    } else {
        Ok(InputLayerState { inputs: Seq::new(lines.len(), |i: int| source_of(lines[i], i)) })
    }
}

impl InputLayerState {
    /// Every source is well formed and knows its own position.
    pub open spec fn wf(self) -> bool {
        &&& self.inputs.len() <= i32::MAX
        &&& forall|i: int|
            0 <= i < self.inputs.len() ==> (#[trigger] self.inputs[i]).wf() && self.inputs[i].index
                == Some(i as i32)
    }

    /// Every source still has a value for the tick.
    pub open spec fn has_batch(self, tick: int) -> bool {
        self.inputs.len() > 0 && forall|i: int|
            0 <= i < self.inputs.len() ==> tick < (#[trigger] self.inputs[i]).spikes.len()
    }

    /// What the sources emit together at a tick: one spike each, in order.
    pub open spec fn batch(self, tick: int) -> Seq<Spike> {
        Seq::new(self.inputs.len(), |i: int| self.inputs[i].spike_at(tick))
    }

    /// The number of batches before the first source closes.
    pub open spec fn duration(self) -> nat {
        shortest(self.inputs)
    }

    /// Every source has an outbound link.
    pub open spec fn all_wired(self) -> bool {
        forall|i: int| 0 <= i < self.inputs.len() ==> (#[trigger] self.inputs[i]).senders.len() > 0
    }

    /// The layer with one more outbound link on every source.
    pub open spec fn linked(self, link: usize) -> Self {
        InputLayerState {
            inputs: Seq::new(
                self.inputs.len(),
                |i: int|
                    InputState { senders: self.inputs[i].senders.push(link), ..self.inputs[i] },
            ),
        }
    }

    /// The layer in words.
    pub open spec fn described(self) -> Seq<char> {
        "input layer with ["@ + decimal(self.inputs.len()) + "] inputs.\n"@
    }

    /// What the sources send, one train per source.
    pub open spec fn trains(self) -> Seq<Seq<Spike>> {
        Seq::new(self.inputs.len(), |i: int| self.inputs[i].train())
    }
}

/// There is a batch for a tick exactly as long as the shortest sequence lasts.
pub proof fn lemma_batches_last_as_shortest(layer: InputLayerState, tick: int)
    requires
        0 <= tick,
    ensures
        layer.has_batch(tick) <==> tick < layer.duration(),
    decreases layer.inputs.len(),
{
    let inputs = layer.inputs;
    if inputs.len() <= 1 {
    } else {
        let head = InputLayerState { inputs: inputs.drop_last() };
        lemma_batches_last_as_shortest(head, tick);
        if layer.has_batch(tick) {
            assert forall|i: int| 0 <= i < head.inputs.len() implies tick < (
            #[trigger] head.inputs[i]).spikes.len() by {
                assert(head.inputs[i] == inputs[i]);
            }
            assert(tick < inputs[inputs.len() - 1].spikes.len());
        }
        if tick < layer.duration() {
            assert forall|i: int| 0 <= i < inputs.len() implies tick < (
            #[trigger] inputs[i]).spikes.len() by {
                if i < inputs.len() - 1 {
                    assert(head.inputs[i] == inputs[i]);
                }
            }
        }
    }
}

/// The input stage: the sources that feed the first layer, one per input line.
pub struct InputLayer {
    inputs: Vec<Input>,
}

impl View for InputLayer {
    type V = InputLayerState;

    closed spec fn view(&self) -> InputLayerState {
        InputLayerState { inputs: Seq::new(self.inputs@.len(), |i: int| self.inputs@[i]@) }
    }
}

impl InputLayer {
    /// Gathers sources into a layer and tells each its position. More
    /// sources than positions can be numbered are refused.
    pub fn new(inputs: Vec<Input>) -> (result: Result<Self, SNNError>)
        requires
            forall|i: int| 0 <= i < inputs@.len() ==> (#[trigger] inputs@[i])@.wf(),
        ensures
            inputs@.len() > i32::MAX ==> result == Err::<Self, SNNError>(SNNError::IndexOutOfRange),
            inputs@.len() <= i32::MAX ==> (result matches Ok(layer) && layer@.wf()
                && layer@.inputs.len() == inputs@.len() && forall|i: int|
                0 <= i < inputs@.len() ==> #[trigger] layer@.inputs[i] == (InputState {
                    index: Some(i as i32),
                    ..inputs@[i]@
                })),
    {
        if inputs.len() > i32::MAX as usize {
            return Err(SNNError::IndexOutOfRange);
        }
        let ghost given = inputs@;
        let mut inputs = inputs;
        let n = inputs.len();
        let mut i: usize = 0;
        while i < n
            invariant
                i <= n,
                n == given.len(),
                n <= i32::MAX,
                inputs@.len() == n,
                forall|j: int| 0 <= j < n ==> (#[trigger] given[j])@.wf(),
                forall|j: int|
                    0 <= j < i ==> (#[trigger] inputs@[j])@ == (InputState {
                        index: Some(j as i32),
                        ..given[j]@
                    }),
                forall|j: int| i <= j < n ==> #[trigger] inputs@[j] == given[j],
            decreases n - i,
        {
            inputs[i].set_index(i as i32);
            i = i + 1;
        }
        let layer = Self { inputs };
        proof {
            assert forall|j: int| 0 <= j < n implies (#[trigger] layer@.inputs[j]).wf()
                && layer@.inputs[j].index == Some(j as i32) by {
                assert(layer@.inputs[j] == inputs@[j]@);
                assert(given[j]@.wf());
            }
        }
        Ok(layer)
    }

    /// Reads the sources from the content of an input file, a text of the
    /// digits 0 and 1: every non-empty line, as cut by the delimiter, is one
    /// source, and every digit of a line the value for one tick. Any other
    /// byte makes the text malformed.
    pub fn from_file(content: &[u8], delimiter: u8) -> (result: Result<Self, SNNError>)
        ensures
            match parsed(content@, delimiter) {
                Ok(sources) => result matches Ok(layer) && layer@ == sources && layer@.wf(),
                Err(e) => result matches Err(reported) && reported == e,
            },
    {
        let mut inputs: Vec<Input> = Vec::new();
        let mut current: Vec<i8> = Vec::new();
        let mut i: usize = 0;
        proof {
            assert(content@.take(0) =~= Seq::<u8>::empty());
            assert(current@ =~= values_of(split(content@.take(0), delimiter).last()));
            assert(split(content@.take(0), delimiter).drop_last() =~= Seq::<Seq<u8>>::empty());
        }
        while i < content.len()
            invariant
                i <= content.len(),
                readable(content@.take(i as int), delimiter),
                current@ == values_of(split(content@.take(i as int), delimiter).last()),
                split(content@.take(i as int), delimiter).len() >= 1,
                held(inputs@, nonempty(split(content@.take(i as int), delimiter).drop_last())),
            decreases content.len() - i,
        {
            let byte = content[i];
            let ghost before = split(content@.take(i as int), delimiter);
            let ghost after = split(content@.take(i + 1), delimiter);
            proof {
                assert(content@.take(i + 1).drop_last() == content@.take(i as int));
                assert(content@.take(i + 1).last() == byte);
            }
            if byte == delimiter {
                proof {
                    assert(after.drop_last() == before);
                    assert(after.last() == Seq::<u8>::empty());
                    lemma_nonempty_keeps(before);
                }
                if current.len() > 0 {
                    let line = current;
                    current = Vec::new();
                    match Input::new(line) {
                        Ok(input) => {
                            inputs.push(input);
                        },
                        Err(e) => {
                            return Err(e);
                        },
                    }
                }
                assert(current@ =~= values_of(after.last()));
            } else if byte == 48 || byte == 49 {
                current.push(if byte == 49 { 1i8 } else { 0i8 });
                proof {
                    assert(after.drop_last() == before.drop_last());
                    assert(after.last() == before.last().push(byte));
                    assert(current@ =~= values_of(after.last()));
                }
            } else {
                proof {
                    assert(content@[i as int] == byte);
                    assert(!readable(content@, delimiter));
                }
                return Err(SNNError::MalformedInput);
            }
            proof {
                assert forall|j: int| 0 <= j < i + 1 implies #[trigger] content@.take(i + 1)[j]
                    == delimiter || is_bit(content@.take(i + 1)[j]) by {
                    if j < i {
                        assert(content@.take(i as int)[j] == content@[j]);
                    }
                }
            }
            i = i + 1;
        }
        let ghost lines = split(content@, delimiter);
        proof {
            assert(content@.take(i as int) == content@);
            lemma_nonempty_keeps(lines);
        }
        if current.len() > 0 {
            match Input::new(current) {
                Ok(input) => {
                    inputs.push(input);
                },
                Err(e) => {
                    return Err(e);
                },
            }
        }
        proof {
            assert(held(inputs@, nonempty(lines)));
            let kept = nonempty(lines);
            assert forall|j: int| 0 <= j < inputs@.len() implies (#[trigger] inputs@[j])@.wf() by {
                assert(inputs@[j]@ == unplaced(kept[j]));
                assert(kept[j].len() > 0);
            }
        }
        match InputLayer::new(inputs) {
            Ok(layer) => {
                proof {
                    let kept = nonempty(lines);
                    assert forall|j: int| 0 <= j < kept.len() implies #[trigger] layer@.inputs[j]
                        == source_of(kept[j], j) by {
                        assert(inputs@[j]@ == unplaced(kept[j]));
                    }
                    assert(layer@.inputs =~= parsed(content@, delimiter)->Ok_0.inputs);
                }
                Ok(layer)
            },
            Err(e) => Err(e),
        }
    }

    /// The layer in words: how many sources it has.
    pub fn to_string(&self) -> (text: String)
        ensures
            text@ == self@.described(),
    {
        let mut text = String::from_str("input layer with [");
        append_decimal(&mut text, self.inputs.len());
        text.append("] inputs.\n");
        text
    }

    /// The sources, in order.
    pub fn inputs(&self) -> (inputs: &Vec<Input>)
        ensures
            inputs@.len() == self@.inputs.len(),
            forall|i: int| 0 <= i < inputs@.len() ==> (#[trigger] inputs@[i])@ == self@.inputs[i],
    {
        &self.inputs
    }

    /// The sources, in order, for the workers that run one source each.
    pub fn into_inputs(self) -> (inputs: Vec<Input>)
        ensures
            inputs@.len() == self@.inputs.len(),
            forall|i: int| 0 <= i < inputs@.len() ==> (#[trigger] inputs@[i])@ == self@.inputs[i],
    {
        self.inputs
    }

    /// The number of sources.
    pub fn len(&self) -> (n: usize)
        ensures
            n == self@.inputs.len(),
    {
        self.inputs.len()
    }

    /// Tells whether the layer can run: it has a source, and every source
    /// has an outbound link.
    pub fn check_inputs(&self) -> (result: Result<(), SNNError>)
        ensures
            self@.inputs.len() == 0 ==> result == Err::<(), SNNError>(SNNError::EmptyInputSet),
            self@.inputs.len() > 0 && !self@.all_wired() ==> result == Err::<(), SNNError>(
                SNNError::Unwired,
            ),
            self@.inputs.len() > 0 && self@.all_wired() ==> result == Ok::<(), SNNError>(()),
    {
        if self.inputs.len() == 0 {
            return Err(SNNError::EmptyInputSet);
        }
        let mut i: usize = 0;
        while i < self.inputs.len()
            invariant
                i <= self.inputs.len(),
                forall|j: int| 0 <= j < i ==> (#[trigger] self@.inputs[j]).senders.len() > 0,
            decreases self.inputs.len() - i,
        {
            if self.inputs[i].is_empty_sender() {
                assert(self@.inputs[i as int].senders.len() == 0);
                return Err(SNNError::Unwired);
            }
            assert(self@.inputs[i as int].senders.len() > 0);
            i = i + 1;
        }
        Ok(())
    }

    /// Attaches an outbound link to one source.
    pub fn add_sender_to(&mut self, n_input: usize, link: usize) -> (result: Result<(), SNNError>)
        ensures
            n_input >= old(self)@.inputs.len() ==> result == Err::<(), SNNError>(
                SNNError::IndexOutOfRange,
            ) && final(self)@ == old(self)@,
            n_input < old(self)@.inputs.len() ==> result == Ok::<(), SNNError>(())
                && final(self)@.inputs == old(self)@.inputs.update(
                n_input as int,
                InputState {
                    senders: old(self)@.inputs[n_input as int].senders.push(link),
                    ..old(self)@.inputs[n_input as int]
                },
            ),
    {
        if n_input >= self.inputs.len() {
            return Err(SNNError::IndexOutOfRange);
        }
        self.inputs[n_input].add_sender(link);
        assert(self@.inputs =~= old(self)@.inputs.update(
            n_input as int,
            InputState {
                senders: old(self)@.inputs[n_input as int].senders.push(link),
                ..old(self)@.inputs[n_input as int]
            },
        ));
        Ok(())
    }

    /// The batch for a tick: one spike of each source, in order. There is
    /// none from the tick on at which the first source is exhausted.
    pub fn batch(&self, tick: usize) -> (batch: Option<Vec<Spike>>)
        ensures
            self@.has_batch(tick as int) ==> (batch matches Some(b) && b@ == self@.batch(
                tick as int,
            )),
            !self@.has_batch(tick as int) ==> batch is None,
    {
        if self.inputs.len() == 0 {
            return None;
        }
        let mut batch: Vec<Spike> = Vec::new();
        let mut i: usize = 0;
        while i < self.inputs.len()
            invariant
                i <= self.inputs.len(),
                forall|j: int| 0 <= j < i ==> tick < (#[trigger] self@.inputs[j]).spikes.len(),
                batch@ == self@.batch(tick as int).take(i as int),
            decreases self.inputs.len() - i,
        {
            match self.inputs[i].emit(tick) {
                Some(spike) => {
                    batch.push(spike);
                },
                None => {
                    assert(!(tick < self@.inputs[i as int].spikes.len()));
                    return None;
                },
            }
            assert(tick < self@.inputs[i as int].spikes.len());
            assert(batch@ == self@.batch(tick as int).take(i + 1));
            i = i + 1;
        }
        assert(self@.batch(tick as int).take(i as int) == self@.batch(tick as int));
        Some(batch)
    }

    /// The number of batches that the layer emits before it closes.
    pub fn duration(&self) -> (n: usize)
        ensures
            n == self@.duration(),
    {
        if self.inputs.len() == 0 {
            return 0;
        }
        let mut n = self.inputs[0].len();
        let mut i: usize = 1;
        assert(self@.inputs.take(1) == seq![self@.inputs[0]]);
        while i < self.inputs.len()
            invariant
                1 <= i <= self.inputs.len(),
                n == shortest(self@.inputs.take(i as int)),
            decreases self.inputs.len() - i,
        {
            let len = self.inputs[i].len();
            proof {
                assert(self@.inputs.take(i + 1).drop_last() == self@.inputs.take(i as int));
                assert(self@.inputs.take(i + 1).last() == self@.inputs[i as int]);
            }
            if len < n {
                n = len;
            }
            i = i + 1;
        }
        assert(self@.inputs.take(i as int) == self@.inputs);
        n
    }

    /// What each source sends, one train per source, for the workers that
    /// do the sending. A layer that cannot run says why.
    pub fn emit_spikes(self) -> (result: Result<Vec<Vec<Spike>>, SNNError>)
        ensures
            self@.inputs.len() == 0 ==> result == Err::<Vec<Vec<Spike>>, SNNError>(
                SNNError::EmptyInputSet,
            ),
            self@.inputs.len() > 0 && !self@.all_wired() ==> result == Err::<
                Vec<Vec<Spike>>,
                SNNError,
            >(SNNError::Unwired),
            self@.inputs.len() > 0 && self@.all_wired() ==> (result matches Ok(trains)
                && trains.deep_view() == self@.trains()),
    {
        match self.check_inputs() {
            Err(e) => {
                return Err(e);
            },
            Ok(()) => {},
        }
        let mut trains: Vec<Vec<Spike>> = Vec::new();
        let mut i: usize = 0;
        while i < self.inputs.len()
            invariant
                i <= self.inputs.len(),
                trains@.len() == i,
                forall|j: int| 0 <= j < i ==> (#[trigger] trains@[j])@ == self@.inputs[j].train(),
            decreases self.inputs.len() - i,
        {
            let train = self.inputs[i].train();
            trains.push(train);
            i = i + 1;
        }
        assert(trains.deep_view() =~~= self@.trains());
        Ok(trains)
    }
}

} // verus!
