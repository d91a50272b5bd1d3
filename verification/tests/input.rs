use snn::errors::SNNError;
use snn::input::Input;
use snn::input_layer::InputLayer;
use snn::spike::Spike;

fn source(values: &[i8]) -> Input {
    match Input::new(values.to_vec()) {
        Ok(input) => input,
        Err(e) => panic!("{:?}", e),
    }
}

fn layer(text: &[u8]) -> InputLayer {
    match InputLayer::from_file(text, b'\n') {
        Ok(layer) => layer,
        Err(e) => panic!("{:?}", e),
    }
}

#[test]
fn input_without_values_is_refused() {
    assert!(matches!(Input::new(vec![]), Err(SNNError::EmptyInputSet)));
}

#[test]
fn input_with_a_value_outside_zero_and_one_is_malformed() {
    assert!(matches!(Input::new(vec![0, 1, 2]), Err(SNNError::MalformedInput)));
    assert!(matches!(Input::new(vec![-1]), Err(SNNError::MalformedInput)));
    assert!(matches!(Input::new(vec![1, 1, 0, 9, 0]), Err(SNNError::MalformedInput)));
}

#[test]
fn input_starts_without_sender() {
    let mut input = source(&[1, 0]);
    assert!(input.is_empty_sender());
    input.add_sender(0);
    assert!(!input.is_empty_sender());
    assert_eq!(input.len(), 2);
}

#[test]
fn input_emits_its_values_in_order_then_closes() {
    let input = source(&[1, 0, 1]);
    assert_eq!(input.emit(0), Some(Spike::new(1, None)));
    assert_eq!(input.emit(1), Some(Spike::new(0, None)));
    assert_eq!(input.emit(2), Some(Spike::new(1, None)));
    assert_eq!(input.emit(3), None);
    assert_eq!(input.emit(usize::MAX), None);
}

#[test]
fn input_tags_spikes_with_its_index() {
    let mut input = source(&[0, 1]);
    input.set_index(5);
    assert_eq!(input.emit(1), Some(Spike::new(1, Some(5))));
    assert_eq!(input.train(), vec![Spike::new(0, Some(5)), Spike::new(1, Some(5))]);
}

#[test]
fn input_run_without_sender_is_unwired() {
    let input = source(&[1, 0, 1]);
    assert_eq!(input.run(), Err(SNNError::Unwired));
}

#[test]
fn input_run_gives_the_whole_train() {
    let mut input = source(&[1, 0, 1]);
    input.add_sender(0);
    input.set_index(2);
    assert_eq!(
        input.run(),
        Ok(vec![Spike::new(1, Some(2)), Spike::new(0, Some(2)), Spike::new(1, Some(2))])
    );
}

#[test]
fn from_file_reads_one_source_per_line() {
    let l = layer(b"101\n010\n");
    assert_eq!(l.len(), 2);
    assert_eq!(l.inputs()[0].train(), vec![
        Spike::new(1, Some(0)),
        Spike::new(0, Some(0)),
        Spike::new(1, Some(0)),
    ]);
    assert_eq!(l.inputs()[1].train(), vec![
        Spike::new(0, Some(1)),
        Spike::new(1, Some(1)),
        Spike::new(0, Some(1)),
    ]);
    assert!(l.inputs()[0].is_empty_sender());
}

#[test]
fn from_file_skips_empty_lines() {
    let l = layer(b"\n\n11\n\n0\n\n");
    assert_eq!(l.len(), 2);
    assert_eq!(l.inputs()[0].len(), 2);
    assert_eq!(l.inputs()[1].len(), 1);
    assert_eq!(l.inputs()[1].emit(0), Some(Spike::new(0, Some(1))));
}

#[test]
fn from_file_of_nothing_gives_no_source() {
    assert_eq!(layer(b"").len(), 0);
    assert_eq!(layer(b"\n\n\n").len(), 0);
}

#[test]
fn from_file_without_trailing_delimiter() {
    let l = layer(b"1\n0110");
    assert_eq!(l.len(), 2);
    assert_eq!(l.inputs()[1].len(), 4);
}

#[test]
fn from_file_refuses_other_bytes() {
    assert!(matches!(InputLayer::from_file(b"10a1\n", b'\n'), Err(SNNError::MalformedInput)));
    assert!(matches!(InputLayer::from_file(b"102\n", b'\n'), Err(SNNError::MalformedInput)));
    assert!(matches!(InputLayer::from_file(b"1 0\n", b'\n'), Err(SNNError::MalformedInput)));
    assert!(matches!(InputLayer::from_file(b"10\r\n01\r\n", b'\n'), Err(SNNError::MalformedInput)));
    assert!(matches!(InputLayer::from_file(b"-1\n", b'\n'), Err(SNNError::MalformedInput)));
}

#[test]
fn from_file_with_another_delimiter() {
    let l = match InputLayer::from_file(b"10;01;;1", b';') {
        Ok(l) => l,
        Err(e) => panic!("{:?}", e),
    };
    assert_eq!(l.len(), 3);
    assert!(matches!(InputLayer::from_file(b"10\n01", b';'), Err(SNNError::MalformedInput)));
}

#[test]
fn from_file_with_a_digit_as_delimiter() {
    let l = match InputLayer::from_file(b"1101", b'0') {
        Ok(l) => l,
        Err(e) => panic!("{:?}", e),
    };
    assert_eq!(l.len(), 2);
    assert_eq!(l.inputs()[0].len(), 2);
    assert_eq!(l.inputs()[1].len(), 1);
}

#[test]
fn check_inputs_on_an_empty_layer() {
    assert_eq!(layer(b"").check_inputs(), Err(SNNError::EmptyInputSet));
}

#[test]
fn check_inputs_wants_every_source_wired() {
    let mut l = layer(b"1\n0\n");
    assert_eq!(l.check_inputs(), Err(SNNError::Unwired));
    assert_eq!(l.add_sender_to(0, 0), Ok(()));
    assert_eq!(l.check_inputs(), Err(SNNError::Unwired));
    assert_eq!(l.add_sender_to(1, 0), Ok(()));
    assert_eq!(l.check_inputs(), Ok(()));
}

#[test]
fn add_sender_to_a_source_that_is_not_there() {
    let mut l = layer(b"1\n0\n");
    assert_eq!(l.add_sender_to(2, 0), Err(SNNError::IndexOutOfRange));
    assert_eq!(l.add_sender_to(usize::MAX, 0), Err(SNNError::IndexOutOfRange));
    assert!(l.inputs()[0].is_empty_sender());
    assert!(l.inputs()[1].is_empty_sender());
}

#[test]
fn batch_takes_one_spike_of_each_source() {
    let l = layer(b"101\n01\n");
    assert_eq!(l.batch(0), Some(vec![Spike::new(1, Some(0)), Spike::new(0, Some(1))]));
    assert_eq!(l.batch(1), Some(vec![Spike::new(0, Some(0)), Spike::new(1, Some(1))]));
    assert_eq!(l.batch(2), None);
    assert_eq!(l.batch(3), None);
    assert_eq!(layer(b"").batch(0), None);
}

#[test]
fn duration_is_the_length_of_the_shortest_source() {
    assert_eq!(layer(b"101\n01\n1111\n").duration(), 2);
    assert_eq!(layer(b"10101").duration(), 5);
    assert_eq!(layer(b"").duration(), 0);
}

#[test]
fn emit_spikes_gives_one_train_per_source() {
    let mut l = layer(b"10\n01\n");
    let _ = l.add_sender_to(0, 0);
    let _ = l.add_sender_to(1, 0);
    assert_eq!(
        l.emit_spikes(),
        Ok(vec![
            vec![Spike::new(1, Some(0)), Spike::new(0, Some(0))],
            vec![Spike::new(0, Some(1)), Spike::new(1, Some(1))],
        ])
    );
}

#[test]
fn emit_spikes_reports_why_it_cannot_run() {
    assert_eq!(layer(b"").emit_spikes(), Err(SNNError::EmptyInputSet));
    assert_eq!(layer(b"1\n").emit_spikes(), Err(SNNError::Unwired));
}

#[test]
fn input_layer_new_numbers_the_sources() {
    let l = match InputLayer::new(vec![source(&[1]), source(&[0, 0]), source(&[1, 1, 1])]) {
        Ok(l) => l,
        Err(e) => panic!("{:?}", e),
    };
    assert_eq!(l.len(), 3);
    assert_eq!(l.inputs()[2].emit(0), Some(Spike::new(1, Some(2))));
    assert_eq!(l.duration(), 1);
}

#[test]
fn input_layer_in_words() {
    assert_eq!(layer(b"1\n0\n").to_string(), "input layer with [2] inputs.\n");
    assert_eq!(layer(b"").to_string(), "input layer with [0] inputs.\n");
    let twelve = b"1\n1\n1\n1\n1\n1\n1\n1\n1\n1\n1\n1\n";
    assert_eq!(layer(twelve).to_string(), "input layer with [12] inputs.\n");
    let mut many: Vec<u8> = Vec::new();
    for _ in 0..1907 {
        many.push(b'1');
        many.push(b'\n');
    }
    assert_eq!(layer(&many).to_string(), "input layer with [1907] inputs.\n");
}
