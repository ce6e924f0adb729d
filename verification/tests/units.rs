use organelle::fault::Fault;
use organelle::handle::Handle;
use organelle::organelle::Organelle;
use organelle::samples::{Counter, DemoMsg, DemoNet, InnerMsg, InnerRole, LinkRole, Pinger};
use organelle::soma::{Action, Convert, Effector, Impulse};

#[test]
fn generated_handles_are_distinct() {
    let mut seen: Vec<Handle> = Vec::new();
    for _ in 0..1000 {
        let h = Handle::allocate();
        assert!(!seen.contains(&h));
        seen.push(h);
    }
}

#[test]
fn handles_compare_by_their_bits() {
    let a = Handle::from_bits(7);
    let b = Handle::from_bits(7);
    let c = Handle::from_bits(8);
    assert_eq!(a, b);
    assert_ne!(a, c);
    assert_eq!(a.bits(), 7);
}

#[test]
fn effector_records_sends_in_order() {
    let me = Handle::from_bits(1);
    let peer = Handle::from_bits(2);
    let mut fx: Effector<DemoMsg> = Effector::new(me);
    assert_eq!(fx.this_soma(), me);

    fx.send(peer, DemoMsg::Increment);
    fx.send_in_order(peer, vec![DemoMsg::Ack, DemoMsg::Ping]);
    fx.stop();
    let acts = fx.take_actions();
    assert_eq!(acts.len(), 4);
    match &acts[0] {
        Action::Payload { src, dest, msg } => {
            assert_eq!(*src, me);
            assert_eq!(*dest, peer);
            assert_eq!(*msg, DemoMsg::Increment);
        },
        _ => panic!("payload expected"),
    }
    match &acts[1] {
        Action::Payload { msg, .. } => assert_eq!(*msg, DemoMsg::Ack),
        _ => panic!("payload expected"),
    }
    match &acts[2] {
        Action::Payload { msg, .. } => assert_eq!(*msg, DemoMsg::Ping),
        _ => panic!("payload expected"),
    }
    match &acts[3] {
        Action::Stop => {},
        _ => panic!("stop expected"),
    }
    // taking the actions empties the effector
    assert_eq!(fx.take_actions().len(), 0);
}

#[test]
fn effector_error_records_the_cause() {
    let mut fx: Effector<DemoMsg> = Effector::new(Handle::from_bits(1));
    fx.error(Fault::Custom(String::from("broke")));
    let acts = fx.take_actions();
    assert_eq!(acts.len(), 1);
    match &acts[0] {
        Action::Error(Fault::Custom(s)) => assert_eq!(s, "broke"),
        _ => panic!("error action expected"),
    }
}

#[test]
fn conversion_pair_round_trips_every_message() {
    let samples = [InnerMsg::Bump, InnerMsg::Confirm, InnerMsg::Wave];
    for m in samples {
        let out: DemoMsg = Convert::<DemoMsg>::to_outer(m);
        let back: InnerMsg = <InnerMsg as Convert<DemoMsg>>::from_outer(out);
        assert_eq!(back, m);
    }
    assert_eq!(Convert::<DemoMsg>::to_outer(InnerMsg::Bump), DemoMsg::Increment);
    assert_eq!(Convert::<DemoMsg>::to_outer(InnerMsg::Confirm), DemoMsg::Ack);
    assert_eq!(Convert::<DemoMsg>::to_outer(InnerMsg::Wave), DemoMsg::Ping);
}

#[test]
fn convert_from_translates_payload_and_roles() {
    let src = Handle::from_bits(3);
    let dest = Handle::from_bits(4);
    let imp: Impulse<DemoMsg, LinkRole> = Impulse::Payload(src, dest, DemoMsg::Ack);
    let converted: Impulse<InnerMsg, InnerRole> = Impulse::convert_from(imp);
    match converted {
        Impulse::Payload(s, d, m) => {
            assert_eq!(s, src);
            assert_eq!(d, dest);
            assert_eq!(m, InnerMsg::Confirm);
        },
        _ => panic!("payload impulse expected"),
    }
}

#[test]
fn convert_protocol_rebuilds_the_capability_object() {
    let me = Handle::from_bits(9);
    let mut fx: Effector<DemoMsg> = Effector::new(me);
    fx.stop();
    let imp: Impulse<DemoMsg, LinkRole> = Impulse::Init(fx);
    let converted: Impulse<InnerMsg, InnerRole> = Impulse::convert_protocol(imp);
    match converted {
        Impulse::Init(mut inner_fx) => {
            // bound to the same owner, with nothing pending
            assert_eq!(inner_fx.this_soma(), me);
            assert_eq!(inner_fx.take_actions().len(), 0);
        },
        _ => panic!("init impulse expected"),
    }
}

#[test]
fn connect_rejects_unknown_handles() {
    let mut net = Organelle::new(DemoNet::Pinger(Pinger::new()));
    let known = net.nucleus();
    let unknown = Handle::from_bits(123456789);

    match net.connect(known, unknown, LinkRole::Link) {
        Err(Fault::UnknownHandle(h)) => assert_eq!(h, unknown),
        _ => panic!("unknown handle fault expected"),
    }
    match net.connect(unknown, known, LinkRole::Link) {
        Err(Fault::UnknownHandle(h)) => assert_eq!(h, unknown),
        _ => panic!("unknown handle fault expected"),
    }
    assert!(net.connect(known, known, LinkRole::Link).is_ok());
}

#[test]
fn added_somas_are_registered_under_fresh_handles() {
    let mut net = Organelle::new(DemoNet::Pinger(Pinger::new()));
    let first = net.nucleus();
    let second = net.add_soma(DemoNet::Counter(Counter::new())).unwrap();
    assert_ne!(first, second);
    assert!(net.contains(first));
    assert!(net.contains(second));
    assert!(!net.contains(Handle::from_bits(42)));
}

#[test]
fn register_rejects_a_taken_handle() {
    let mut net = Organelle::new(DemoNet::Pinger(Pinger::new()));
    let chosen = Handle::from_bits(7777);
    assert!(net.register(chosen, DemoNet::Counter(Counter::new())).is_ok());
    assert!(net.contains(chosen));
    match net.register(chosen, DemoNet::Counter(Counter::new())) {
        Err(Fault::Custom(s)) => assert_eq!(s, "handle is already taken"),
        _ => panic!("collision fault expected"),
    }
}

#[test]
fn fault_chains_describe_component_failures() {
    let inner = Fault::Custom(String::from("root cause"));
    let chained = inner.chain();
    match &chained {
        Fault::Soma(b) => match &**b {
            Fault::Custom(s) => assert_eq!(s, "root cause"),
            _ => panic!("custom fault expected"),
        },
        _ => panic!("soma fault expected"),
    }
    assert_eq!(chained.describe(), "an error occurred while calling into a soma");
}
