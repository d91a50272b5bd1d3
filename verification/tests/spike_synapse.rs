use snn::errors::SNNError;
use snn::spike::Spike;
use snn::synapse::Synapse;

#[test]
fn spike_keeps_what_it_is_given() {
    let s = Spike::new(1, Some(4));
    assert_eq!(s.output, 1);
    assert_eq!(s.n_neuron, Some(4));
    let t = Spike::new(0, None);
    assert_eq!(t.output, 0);
    assert_eq!(t.n_neuron, None);
}

#[test]
fn spike_is_copied_by_value() {
    let s = Spike::new(1, Some(2));
    let t = s;
    assert_eq!(s, t);
}

#[test]
fn spike_binary_check() {
    assert!(Spike::new(0, None).check_binary());
    assert!(Spike::new(1, None).check_binary());
    assert!(!Spike::new(2, None).check_binary());
    assert!(!Spike::new(-1, Some(0)).check_binary());
}

#[test]
fn synapse_of_weight_zero_is_not_made() {
    assert!(Synapse::new(0).is_none());
    assert!(Synapse::new(1).is_some());
    assert!(Synapse::new(-1).is_some());
}

#[test]
fn synapse_weighs_a_spike() {
    let s = Synapse::new(2500).unwrap();
    assert_eq!(s.weigh(Spike::new(1, Some(0))), 2500);
    assert_eq!(s.weigh(Spike::new(0, Some(0))), 0);
    let inhibitory = Synapse::new(-5000).unwrap();
    assert_eq!(inhibitory.weigh(Spike::new(1, None)), -5000);
    assert_eq!(inhibitory.weigh(Spike::new(0, None)), 0);
}

#[test]
fn synapse_receive_returns_the_weighted_value() {
    let s = Synapse::new(i64::MAX).unwrap();
    assert_eq!(s.receive(Some(Spike::new(1, Some(3)))), Ok(i64::MAX));
    assert_eq!(s.receive(Some(Spike::new(0, Some(3)))), Ok(0));
}

#[test]
fn synapse_receive_tells_closure_apart() {
    let s = Synapse::new(7).unwrap();
    assert_eq!(s.receive(None), Err(SNNError::ChannelClosed));
}

#[test]
fn synapse_get_weight() {
    assert_eq!(Synapse::new(-42).unwrap().get_weight(), -42);
}
