use organelle::fault::Fault;
use organelle::organelle::{Organelle, RunOutcome};
use organelle::protocol::{EventKind, Phase};
use organelle::samples::{
    Auditor, BoundaryNet, Counter, DemoMsg, DemoNet, Emitter, InnerMsg, InnerNet, InnerRecorder,
    LinkRole, Nested, Pinger, Recorder, Stopper, Tripwire,
};
use organelle::soma::SomaWrapper;

#[test]
fn ping_ack_five_round_trips_then_stop() {
    let mut net = Organelle::new(DemoNet::Pinger(Pinger::new()));
    let pinger = net.nucleus();
    let counter = net.add_soma(DemoNet::Counter(Counter::new())).unwrap();
    net.connect(pinger, counter, LinkRole::Link).unwrap();

    let outcome = net.run(10_000).unwrap();
    assert_eq!(outcome, RunOutcome::Stopped);

    match net.inspect(pinger).unwrap() {
        DemoNet::Pinger(p) => {
            // the initial send plus one resend per ack received
            assert_eq!(p.sent, 6);
            assert!(p.done);
        },
        _ => panic!("pinger expected"),
    }
    match net.inspect(counter).unwrap() {
        DemoNet::Counter(c) => {
            assert_eq!(c.acks, 5);
            assert!(c.done);
        },
        _ => panic!("counter expected"),
    }
    assert_eq!(net.phase_of(pinger).unwrap(), Phase::Terminated);
    assert_eq!(net.phase_of(counter).unwrap(), Phase::Terminated);
}

#[test]
fn composite_readdresses_outbound_but_not_interior_messages() {
    // inner network: its nucleus (and output child) is an emitter that
    // greets every announced peer; one interior recorder
    let mut sub = Organelle::new(DemoNet::Emitter(Emitter::new()));
    let emitter = sub.nucleus();
    let interior = sub.add_soma(DemoNet::Recorder(Recorder::new())).unwrap();
    sub.connect(emitter, interior, LinkRole::Link).unwrap();

    // outer network: an external recorder plus the whole inner network
    let mut net = Organelle::new(Nested::Leaf(DemoNet::Recorder(Recorder::new())));
    let external = net.nucleus();
    let sub_handle = net.add_soma(Nested::Sub(Box::new(sub))).unwrap();
    net.connect(sub_handle, external, LinkRole::Link).unwrap();

    let outcome = net.run(10_000).unwrap();
    assert_eq!(outcome, RunOutcome::Idle);

    // the external recorder sees the composite, not the emitter
    match net.inspect(external).unwrap() {
        Nested::Leaf(DemoNet::Recorder(r)) => {
            assert_eq!(r.got.len(), 1);
            assert_eq!(r.got[0].0, sub_handle);
            assert_eq!(r.got[0].1, DemoMsg::Ping);
        },
        _ => panic!("recorder expected"),
    }
    // the interior recorder sees the emitter itself
    match net.inspect(sub_handle).unwrap() {
        Nested::Sub(sub) => match sub.inspect(interior).unwrap() {
            DemoNet::Recorder(r) => {
                assert_eq!(r.got.len(), 1);
                assert_eq!(r.got[0].0, emitter);
                assert_eq!(r.got[0].1, DemoMsg::Ping);
            },
            _ => panic!("recorder expected"),
        },
        _ => panic!("sub-network expected"),
    }
}

#[test]
fn stop_from_leaf_terminates_three_nested_levels() {
    // innermost level: a single stopper
    let innermost = Organelle::new(DemoNet::Stopper(Stopper::new()));
    let stopper = innermost.nucleus();

    // middle level wraps the innermost network
    let mut middle = Organelle::new(Nested::Leaf(DemoNet::Recorder(Recorder::new())));
    let middle_witness = middle.nucleus();
    let inner_handle = middle.add_soma(Nested::Sub(Box::new(innermost))).unwrap();

    // top level wraps the middle network
    let mut net = Organelle::new(Nested::Leaf(DemoNet::Recorder(Recorder::new())));
    let top_witness = net.nucleus();
    let middle_handle = net.add_soma(Nested::Sub(Box::new(middle))).unwrap();

    let outcome = net.run(10_000).unwrap();
    assert_eq!(outcome, RunOutcome::Stopped);

    // every level observed termination
    assert_eq!(net.phase_of(top_witness).unwrap(), Phase::Terminated);
    assert_eq!(net.phase_of(middle_handle).unwrap(), Phase::Terminated);
    match net.inspect(middle_handle).unwrap() {
        Nested::Sub(middle) => {
            assert_eq!(middle.phase_of(middle_witness).unwrap(), Phase::Terminated);
            assert_eq!(middle.phase_of(inner_handle).unwrap(), Phase::Terminated);
            match middle.inspect(inner_handle).unwrap() {
                Nested::Sub(innermost) => {
                    assert_eq!(innermost.phase_of(stopper).unwrap(), Phase::Terminated);
                    match innermost.inspect(stopper).unwrap() {
                        DemoNet::Stopper(s) => assert!(s.done),
                        _ => panic!("stopper expected"),
                    }
                },
                _ => panic!("sub-network expected"),
            }
        },
        _ => panic!("sub-network expected"),
    }
}

#[test]
fn each_component_observes_init_first_wiring_then_start_then_terminal() {
    let mut net = Organelle::new(DemoNet::Auditor(Auditor::new()));
    let auditor = net.nucleus();
    let stopper = net.add_soma(DemoNet::Stopper(Stopper::new())).unwrap();
    net.connect(stopper, auditor, LinkRole::Link).unwrap();

    let outcome = net.run(10_000).unwrap();
    assert_eq!(outcome, RunOutcome::Stopped);

    match net.inspect(auditor).unwrap() {
        DemoNet::Auditor(a) => {
            let log = &a.log;
            assert!(!log.is_empty());
            // the first event is Init, and the only Init
            assert_eq!(log[0], EventKind::Init);
            assert_eq!(log.iter().filter(|k| **k == EventKind::Init).count(), 1);
            // Start occurs exactly once, after all wiring
            let start = log.iter().position(|k| *k == EventKind::Start).unwrap();
            assert_eq!(log.iter().filter(|k| **k == EventKind::Start).count(), 1);
            for (i, k) in log.iter().enumerate() {
                if *k == EventKind::Wire {
                    assert!(i < start);
                }
            }
            // the last event is terminal, and nothing follows it
            assert_eq!(*log.last().unwrap(), EventKind::Terminal);
            assert_eq!(log.iter().filter(|k| **k == EventKind::Terminal).count(), 1);
        },
        _ => panic!("auditor expected"),
    }
}

#[test]
fn messages_cross_a_type_boundary_through_the_conversion_pair() {
    // an inner network speaking its own message type, wrapped for the
    // outer network by the adapter
    let inner = Organelle::new(InnerNet::Recorder(InnerRecorder::new()));
    let wrapper: SomaWrapper<Organelle<InnerNet>, DemoMsg, LinkRole> = SomaWrapper::new(inner);

    let mut net = Organelle::new(BoundaryNet::Leaf(DemoNet::Emitter(Emitter::new())));
    let emitter = net.nucleus();
    let wrapped = net.add_soma(BoundaryNet::Wrapped(Box::new(wrapper))).unwrap();
    net.connect(emitter, wrapped, LinkRole::Link).unwrap();

    let outcome = net.run(10_000).unwrap();
    assert_eq!(outcome, RunOutcome::Idle);

    match net.inspect(wrapped).unwrap() {
        BoundaryNet::Wrapped(w) => match w.inner_ref() {
            Some(sub) => {
                let inner_nucleus = sub.nucleus();
                match sub.inspect(inner_nucleus).unwrap() {
                    InnerNet::Recorder(r) => {
                        // the outer Ping arrived as the inner Wave
                        assert_eq!(r.got.len(), 1);
                        assert_eq!(r.got[0].0, emitter);
                        assert_eq!(r.got[0].1, InnerMsg::Wave);
                    },
                }
            },
            None => panic!("inner network expected"),
        },
        _ => panic!("wrapped network expected"),
    }
}

#[test]
fn run_with_no_fuel_can_be_resumed() {
    let mut net = Organelle::new(DemoNet::Pinger(Pinger::new()));
    let pinger = net.nucleus();
    let counter = net.add_soma(DemoNet::Counter(Counter::new())).unwrap();
    net.connect(pinger, counter, LinkRole::Link).unwrap();

    // the network starts, but no relay action is processed yet
    assert_eq!(net.run(0).unwrap(), RunOutcome::Spent);
    // resuming finishes the exchange
    assert_eq!(net.run(10_000).unwrap(), RunOutcome::Stopped);
    match net.inspect(counter).unwrap() {
        DemoNet::Counter(c) => assert_eq!(c.acks, 5),
        _ => panic!("counter expected"),
    }
}

#[test]
fn distinct_input_and_output_children_carry_traffic_both_ways() {
    // inner network: a recorder as the input child, an emitter chosen
    // as the output child
    let mut sub = Organelle::new(DemoNet::Recorder(Recorder::new()));
    let doorman = sub.nucleus();
    let speaker = sub.add_soma(DemoNet::Emitter(Emitter::new())).unwrap();
    sub.set_output(speaker).unwrap();
    sub.set_input(doorman).unwrap();

    // outer network: an emitter talking into the composite, and a
    // recorder listening to it
    let mut net = Organelle::new(Nested::Leaf(DemoNet::Emitter(Emitter::new())));
    let talker = net.nucleus();
    let sub_handle = net.add_soma(Nested::Sub(Box::new(sub))).unwrap();
    let listener = net.add_soma(Nested::Leaf(DemoNet::Recorder(Recorder::new()))).unwrap();
    net.connect(talker, sub_handle, LinkRole::Link).unwrap();
    net.connect(sub_handle, listener, LinkRole::Link).unwrap();

    let outcome = net.run(10_000).unwrap();
    assert_eq!(outcome, RunOutcome::Idle);

    // what left the composite appears to come from the composite
    match net.inspect(listener).unwrap() {
        Nested::Leaf(DemoNet::Recorder(r)) => {
            assert_eq!(r.got.len(), 1);
            assert_eq!(r.got[0].0, sub_handle);
            assert_eq!(r.got[0].1, DemoMsg::Ping);
        },
        _ => panic!("recorder expected"),
    }
    // what entered the composite reached its input child, with the
    // outer sender as its source
    match net.inspect(sub_handle).unwrap() {
        Nested::Sub(sub) => match sub.inspect(doorman).unwrap() {
            DemoNet::Recorder(r) => {
                assert_eq!(r.got.len(), 1);
                assert_eq!(r.got[0].0, talker);
                assert_eq!(r.got[0].1, DemoMsg::Ping);
            },
            _ => panic!("recorder expected"),
        },
        _ => panic!("sub-network expected"),
    }
}

#[test]
fn component_failure_aborts_the_whole_network() {
    let mut net = Organelle::new(DemoNet::Recorder(Recorder::new()));
    let witness = net.nucleus();
    let tripwire = net.add_soma(DemoNet::Tripwire(Tripwire::new())).unwrap();

    match net.run(10_000) {
        Err(Fault::Soma(inner)) => match *inner {
            Fault::Custom(s) => assert_eq!(s, "tripwire sprung"),
            _ => panic!("custom cause expected"),
        },
        other => panic!("escalated component failure expected, got {:?}", other.is_ok()),
    }
    // the whole network is wound down: the healthy component observed
    // termination, the failed one is gone
    assert_eq!(net.phase_of(witness).unwrap(), Phase::Terminated);
    assert!(net.inspect(tripwire).is_none());
    match net.inspect(witness).unwrap() {
        DemoNet::Recorder(r) => assert!(r.done),
        _ => panic!("recorder expected"),
    }
}

#[test]
fn a_pending_error_takes_precedence_over_a_stop() {
    // the stopper's stop request is queued ahead of the tripwire's
    // failure, but the error must win
    let mut net = Organelle::new(DemoNet::Stopper(Stopper::new()));
    let stopper = net.nucleus();
    net.add_soma(DemoNet::Tripwire(Tripwire::new())).unwrap();

    match net.run(10_000) {
        Err(Fault::Soma(inner)) => match *inner {
            Fault::Custom(s) => assert_eq!(s, "tripwire sprung"),
            _ => panic!("custom cause expected"),
        },
        other => panic!("the queued error must surface, got ok = {:?}", other.is_ok()),
    }
    assert_eq!(net.phase_of(stopper).unwrap(), Phase::Terminated);
}

#[test]
fn burst_beyond_relay_capacity_loses_nothing() {
    // one emitter wired to the same recorder far more times than the
    // relay's ready buffer holds: every send is parked and delivered
    let mut net = Organelle::new(DemoNet::Emitter(Emitter::new()));
    let emitter = net.nucleus();
    let recorder = net.add_soma(DemoNet::Recorder(Recorder::new())).unwrap();
    for _ in 0..150 {
        net.connect(emitter, recorder, LinkRole::Link).unwrap();
    }

    let outcome = net.run(10_000).unwrap();
    assert_eq!(outcome, RunOutcome::Idle);

    match net.inspect(recorder).unwrap() {
        DemoNet::Recorder(r) => {
            assert_eq!(r.got.len(), 150);
            for (src, msg) in r.got.iter() {
                assert_eq!(*src, emitter);
                assert_eq!(*msg, DemoMsg::Ping);
            }
        },
        _ => panic!("recorder expected"),
    }
}

#[test]
fn network_with_nothing_to_do_goes_idle() {
    let mut net = Organelle::new(DemoNet::Recorder(Recorder::new()));
    let outcome = net.run(10_000).unwrap();
    assert_eq!(outcome, RunOutcome::Idle);
}
