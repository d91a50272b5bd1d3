use snn::errors::SNNError;
use snn::input::Input;
use snn::neural_layer::NeuralLayer;
use snn::neuron::Neuron;
use snn::output::OutputMonitor;
use snn::spike::Spike;
use snn::worker::{check_all_binary, Action, Event, LayerWorker, Phase, SinkWorker, SourceWorker};

const UNIT: i64 = 1000;

fn sum(_: i32, _: i32, _: i64, v: i64, _: i64, w: Vec<i64>) -> i64 {
    v + w.iter().sum::<i64>()
}

fn wired_layer() -> NeuralLayer {
    let mut l = NeuralLayer::new(1, vec![vec![0]], vec![vec![2 * UNIT]]).unwrap();
    assert_eq!(l.add_neuron(Neuron::new(UNIT, 0, 0, UNIT, 0)), Ok(()));
    l.add_receiver(0);
    l.set_barrier(0, true);
    l.add_sender(1);
    l.set_barrier(1, false);
    l
}

fn layer_worker() -> LayerWorker {
    match LayerWorker::new(wired_layer()) {
        Ok(w) => w,
        Err(e) => panic!("{:?}", e),
    }
}

fn source_worker(values: &[i8]) -> SourceWorker {
    let mut input = Input::new(values.to_vec()).unwrap();
    input.add_sender(0);
    input.set_index(0);
    match SourceWorker::new(input, values.len()) {
        Ok(w) => w,
        Err(e) => panic!("{:?}", e),
    }
}

fn sink_worker(n: usize) -> SinkWorker {
    let mut m = OutputMonitor::new(n);
    m.add_receiver(1);
    match SinkWorker::new(m) {
        Ok(w) => w,
        Err(e) => panic!("{:?}", e),
    }
}

#[test]
fn all_binary_check() {
    assert!(check_all_binary(&vec![]));
    assert!(check_all_binary(&vec![Spike::new(0, None), Spike::new(1, Some(1))]));
    assert!(!check_all_binary(&vec![Spike::new(0, None), Spike::new(3, Some(1))]));
}

#[test]
fn layer_worker_wants_a_wired_layer() {
    let mut l = NeuralLayer::new(1, vec![vec![0]], vec![vec![2 * UNIT]]).unwrap();
    assert_eq!(l.add_neuron(Neuron::new(UNIT, 0, 0, UNIT, 0)), Ok(()));
    assert!(matches!(LayerWorker::new(l), Err(SNNError::Unwired)));
    assert_eq!(layer_worker().phase(), Phase::Receiving);
}

#[test]
fn layer_worker_goes_through_the_tick() {
    let mut w = layer_worker();
    let a = w.on(Event::Arrived(vec![Spike::new(1, Some(0))]), &sum);
    assert!(matches!(a, Action::WaitInput));
    assert_eq!(w.phase(), Phase::InputBarrier);
    assert_eq!(w.layer().ticks(), 0);
    let a = w.on(Event::Passed, &sum);
    match a {
        Action::Send(out) => assert_eq!(out, vec![Spike::new(1, Some(0))]),
        _ => panic!("no batch to send"),
    }
    assert_eq!(w.phase(), Phase::Sending);
    assert_eq!(w.layer().ticks(), 1);
    assert!(matches!(w.on(Event::Sent, &sum), Action::WaitOutput));
    assert_eq!(w.phase(), Phase::OutputBarrier);
    assert!(matches!(w.on(Event::Passed, &sum), Action::Receive));
    assert_eq!(w.phase(), Phase::Receiving);
    let a = w.on(Event::Arrived(vec![Spike::new(0, Some(0))]), &sum);
    assert!(matches!(a, Action::WaitInput));
    match w.on(Event::Passed, &sum) {
        Action::Send(out) => assert_eq!(out, vec![Spike::new(0, Some(0))]),
        _ => panic!("no batch to send"),
    }
    assert_eq!(w.layer().ticks(), 2);
}

#[test]
fn layer_worker_stops_quietly_on_closure() {
    let mut w = layer_worker();
    assert!(matches!(w.on(Event::Closed, &sum), Action::Stop(Ok(()))));
    assert_eq!(w.phase(), Phase::Stopped);
    assert_eq!(w.layer().ticks(), 0);
}

#[test]
fn layer_worker_failed_send_is_a_fault() {
    let mut w = layer_worker();
    let _ = w.on(Event::Arrived(vec![Spike::new(1, Some(0))]), &sum);
    let _ = w.on(Event::Passed, &sum);
    assert!(matches!(w.on(Event::SendFailed, &sum), Action::Stop(Err(SNNError::ChannelFault))));
    assert_eq!(w.phase(), Phase::Stopped);
}

#[test]
fn layer_worker_batch_that_does_not_fit_is_a_fault() {
    let mut w = layer_worker();
    let two = vec![Spike::new(1, Some(0)), Spike::new(1, Some(1))];
    assert!(matches!(w.on(Event::Arrived(two), &sum), Action::Stop(Err(SNNError::ChannelFault))));
    let mut w = layer_worker();
    let loud = vec![Spike::new(2, Some(0))];
    assert!(matches!(w.on(Event::Arrived(loud), &sum), Action::Stop(Err(SNNError::ChannelFault))));
    assert_eq!(w.layer().ticks(), 0);
}

#[test]
fn layer_worker_event_out_of_turn_is_a_fault() {
    let mut w = layer_worker();
    assert!(matches!(w.on(Event::Passed, &sum), Action::Stop(Err(SNNError::ChannelFault))));
    let mut w = layer_worker();
    assert!(matches!(w.on(Event::Sent, &sum), Action::Stop(Err(SNNError::ChannelFault))));
    let mut w = layer_worker();
    let _ = w.on(Event::Arrived(vec![Spike::new(1, Some(0))]), &sum);
    assert!(matches!(w.on(Event::Closed, &sum), Action::Stop(Err(SNNError::ChannelFault))));
    // once stopped, a worker stays stopped
    assert!(matches!(w.on(Event::Passed, &sum), Action::Stop(Err(SNNError::ChannelFault))));
    assert_eq!(w.phase(), Phase::Stopped);
    assert_eq!(w.layer().ticks(), 0);
}

#[test]
fn source_worker_wants_a_sender() {
    let input = Input::new(vec![1, 0]).unwrap();
    assert!(matches!(SourceWorker::new(input, 2), Err(SNNError::Unwired)));
}

#[test]
fn source_worker_wants_ticks_within_the_source() {
    let wired = || {
        let mut input = Input::new(vec![1, 0]).unwrap();
        input.add_sender(0);
        input
    };
    assert!(matches!(SourceWorker::new(wired(), 0), Err(SNNError::IndexOutOfRange)));
    assert!(matches!(SourceWorker::new(wired(), 3), Err(SNNError::IndexOutOfRange)));
    assert!(SourceWorker::new(wired(), 1).is_ok());
    assert!(SourceWorker::new(wired(), 2).is_ok());
}

#[test]
fn source_worker_stops_with_the_shortest_source() {
    let mut input = Input::new(vec![1, 1, 1, 1]).unwrap();
    input.add_sender(0);
    let mut w = SourceWorker::new(input, 2).unwrap();
    assert!(matches!(w.start(), Action::Send(_)));
    assert!(matches!(w.on(Event::Sent), Action::WaitOutput));
    assert!(matches!(w.on(Event::Passed), Action::Send(_)));
    assert!(matches!(w.on(Event::Sent), Action::WaitOutput));
    assert!(matches!(w.on(Event::Passed), Action::Stop(Ok(()))));
    assert_eq!(w.phase(), Phase::Stopped);
}

#[test]
fn source_worker_sends_each_value_once_then_stops() {
    let mut w = source_worker(&[1, 0, 1]);
    let mut sent = Vec::new();
    let mut waits = 0;
    let mut action = w.start();
    let mut steps = 0;
    loop {
        steps += 1;
        assert!(steps < 20);
        let event = match action {
            Action::Send(spike) => {
                sent.push(spike);
                assert_eq!(waits + 1, sent.len());
                Event::Sent
            }
            Action::WaitOutput => {
                waits += 1;
                assert_eq!(waits, sent.len());
                Event::Passed
            }
            Action::Stop(result) => {
                assert_eq!(result, Ok(()));
                break;
            }
            _ => panic!("a source neither receives nor waits on an input side"),
        };
        action = w.on(event);
    }
    assert_eq!(sent, vec![Spike::new(1, Some(0)), Spike::new(0, Some(0)), Spike::new(1, Some(0))]);
    assert_eq!(waits, 3);
}

#[test]
fn source_worker_failed_send_is_a_fault() {
    let mut w = source_worker(&[1, 0, 1]);
    let _ = w.start();
    assert!(matches!(w.on(Event::SendFailed), Action::Stop(Err(SNNError::ChannelFault))));
}

#[test]
fn source_worker_event_out_of_turn_is_a_fault() {
    let mut w = source_worker(&[1, 0, 1]);
    let _ = w.start();
    assert!(matches!(w.on(Event::Passed), Action::Stop(Err(SNNError::ChannelFault))));
    let mut w = source_worker(&[1]);
    let _ = w.start();
    assert!(matches!(w.on(Event::Arrived(Spike::new(1, None))), Action::Stop(Err(SNNError::ChannelFault))));
}

#[test]
fn sink_worker_wants_a_receiver() {
    assert!(matches!(SinkWorker::new(OutputMonitor::new(1)), Err(SNNError::Unwired)));
}

#[test]
fn sink_worker_counts_until_closure() {
    let mut w = sink_worker(2);
    for _ in 0..3 {
        let batch = vec![Spike::new(1, Some(0)), Spike::new(0, Some(1))];
        assert!(matches!(w.on(Event::Arrived(batch)), Action::WaitInput));
        assert!(matches!(w.on(Event::Passed), Action::Receive));
    }
    assert_eq!(w.monitor().ticks(), 3);
    assert!(matches!(w.on(Event::Closed), Action::Stop(Ok(()))));
    assert_eq!(w.monitor().ticks(), 3);
    // once closed, the worker asks for nothing more
    assert!(matches!(w.on(Event::Passed), Action::Stop(Err(SNNError::ChannelFault))));
    assert_eq!(w.into_outputs(), vec![3, 0]);
}

#[test]
fn sink_worker_counts_the_tick_after_the_barrier() {
    let mut w = sink_worker(1);
    assert!(matches!(w.on(Event::Arrived(vec![Spike::new(1, Some(0))])), Action::WaitInput));
    assert_eq!(w.monitor().ticks(), 0);
    assert_eq!(w.monitor().outputs(), &vec![0]);
    assert!(matches!(w.on(Event::Passed), Action::Receive));
    assert_eq!(w.monitor().ticks(), 1);
    assert_eq!(w.monitor().outputs(), &vec![1]);
}

#[test]
fn sink_worker_surfaces_a_wiring_error() {
    let mut w = sink_worker(1);
    assert!(matches!(w.on(Event::Arrived(vec![Spike::new(1, None)])), Action::WaitInput));
    assert!(matches!(w.on(Event::Passed), Action::Stop(Err(SNNError::Unwired))));
    let mut w = sink_worker(1);
    assert!(matches!(w.on(Event::Arrived(vec![Spike::new(1, Some(1))])), Action::WaitInput));
    assert!(matches!(w.on(Event::Passed), Action::Stop(Err(SNNError::IndexOutOfRange))));
    assert_eq!(w.into_outputs(), vec![0]);
}

#[test]
fn sink_worker_faults() {
    let mut w = sink_worker(1);
    assert!(matches!(w.on(Event::Arrived(vec![Spike::new(5, Some(0))])), Action::Stop(Err(SNNError::ChannelFault))));
    let mut w = sink_worker(1);
    assert!(matches!(w.on(Event::Arrived(vec![])), Action::Stop(Err(SNNError::ChannelFault))));
    let mut w = sink_worker(1);
    assert!(matches!(w.on(Event::Sent), Action::Stop(Err(SNNError::ChannelFault))));
    let mut w = sink_worker(1);
    assert!(matches!(w.on(Event::SendFailed), Action::Stop(Err(SNNError::ChannelFault))));
}
